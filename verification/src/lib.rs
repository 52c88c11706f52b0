//! Finds the package change that broke a system, by binary search over the
//! difference between two package states.
//!
//! The library covers the logic of that task: comparing version strings,
//! computing the structured difference between two name-to-version states,
//! driving a bisection over the resulting change list with a yes/no oracle,
//! and ranking remediation actions for the culprit. Snapshot enumeration,
//! prompts, network calls and package-manager commands live in the
//! surrounding binary, which hands this library plain values.

mod bisect;
mod errors;
mod fixer;
mod package_diff;
mod pkglist;
mod premium;
mod recovery;
mod snapshot;
mod test_runner;
mod text;
mod version;

pub use bisect::{simulate_monotonic_bisect, BisectSession};
pub use errors::TraceError;
pub use fixer::{candidate_actions, FixAction};
pub use package_diff::{compute_diff, dedup_packages, Package, PackageChange, PackageDiff};
pub use pkglist::{parse_dpkg_list, parse_pacman_list, parse_rpm_list};
pub use premium::{
    apply_activation, apply_premium_grant, check_can_trace, emails_match, get_eshu_premium_url,
    get_upgrade_url, increment_trace_usage, is_premium, license_accepted, LicenseType,
    TraceLicense, FREE_TRACE_LIMIT,
};
pub use recovery::{
    parse_os_release_id, source_is_snapshot, RecoveryContext, RecoveryProbe, RecoveryType,
};
pub use snapshot::{
    get_packages_for_snapshot, sort_snapshots_by_date, Snapshot, SnapshotBackend, SnapshotManager,
};
pub use test_runner::TestRunner;
pub use text::contains_substr;
pub use version::version_compare;
