use vstd::prelude::*;

verus! {

/// The failure surface of the library: session construction on an empty
/// change list, a failed oracle step, and the conditions the surrounding
/// binary must report before the core can run.
#[derive(Debug, Clone, PartialEq, Eq, Structural)]
pub enum TraceError {
    /// The good and bad states are identical: nothing to bisect.
    EmptyChangeSet,
    /// The yes/no feedback mechanism itself errored; fatal for the session.
    OracleFailure,
    /// No snapshot backend was found on the system.
    NoSnapshotBackend,
    /// The requested snapshot id is not in the listing.
    SnapshotNotFound,
    /// The trial license has no traces left.
    TrialLimitReached,
    /// The operation needs a paid license.
    PremiumRequired,
    /// A live-USB session has no system mounted at the expected root.
    SystemNotMounted,
}

impl TraceError {
    /// A short user-facing description of the error.
    pub fn message(&self) -> (r: &'static str)
        ensures
            r@ == self.spec_message(),
    {
        match self {
            TraceError::EmptyChangeSet => "no package changes to bisect",
            TraceError::OracleFailure => "the test oracle failed",
            TraceError::NoSnapshotBackend => "no snapshot backend detected",
            TraceError::SnapshotNotFound => "snapshot not found",
            TraceError::TrialLimitReached => "trial limit reached",
            TraceError::PremiumRequired => "this feature requires a license",
            TraceError::SystemNotMounted => "system not mounted",
        }
    }

    pub open spec fn spec_message(&self) -> Seq<char> {
        match self {
            TraceError::EmptyChangeSet => "no package changes to bisect"@,
            TraceError::OracleFailure => "the test oracle failed"@,
            TraceError::NoSnapshotBackend => "no snapshot backend detected"@,
            TraceError::SnapshotNotFound => "snapshot not found"@,
            TraceError::TrialLimitReached => "trial limit reached"@,
            TraceError::PremiumRequired => "this feature requires a license"@,
            TraceError::SystemNotMounted => "system not mounted"@,
        }
    }
}

} // verus!
