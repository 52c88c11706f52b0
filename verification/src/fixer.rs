//! The remediation planner: maps a culprit change to the ordered list of
//! valid fix options for its kind, most recommended first.
//!
//! The planner is pure: it only enumerates options. Translating a chosen
//! action into package-manager commands is the business of an external
//! executor and never happens here.

use vstd::prelude::*;

use crate::package_diff::{Package, PackageChange};

verus! {

/// One remediation option for a culprit change. Pure data, with no side
/// effect attached.
#[derive(Debug, PartialEq, Eq)]
pub enum FixAction {
    /// Bring the package back to the given target version.
    Downgrade(String, String),
    /// Remove the package.
    Remove(String),
    /// Hold the package at the given version, preventing future updates.
    Pin(String, String),
    /// Report a bug against the package.
    ReportBug(String),
    /// Leave the system as it is.
    DoNothing,
}

impl Clone for FixAction {
    fn clone(&self) -> (r: Self)
        ensures
            r == *self,
    {
        match self {
            FixAction::Downgrade(p, v) => FixAction::Downgrade(p.clone(), v.clone()),
            FixAction::Remove(p) => FixAction::Remove(p.clone()),
            FixAction::Pin(p, v) => FixAction::Pin(p.clone(), v.clone()),
            FixAction::ReportBug(p) => FixAction::ReportBug(p.clone()),
            FixAction::DoNothing => FixAction::DoNothing,
        }
    }
}

/// The ordered remediation candidates for a change kind: an added package can
/// be removed; a removed one has no direct reinstatement action; an upgraded
/// one can be downgraded to the old version, pinned at it, or removed; a
/// downgraded one can be pinned at its new version. Every list ends with
/// reporting a bug and doing nothing.
pub open spec fn spec_candidate_actions(c: PackageChange) -> Seq<FixAction> {
    match c {
        PackageChange::Added(p) => seq![
            FixAction::Remove(p.name),
            FixAction::ReportBug(p.name),
            FixAction::DoNothing,
        ],
        PackageChange::Removed(p) => seq![FixAction::ReportBug(p.name), FixAction::DoNothing],
        PackageChange::Upgraded(p, old_v, _new_v) => seq![
            FixAction::Downgrade(p.name, old_v),
            FixAction::Pin(p.name, old_v),
            FixAction::Remove(p.name),
            FixAction::ReportBug(p.name),
            FixAction::DoNothing,
        ],
        PackageChange::Downgraded(p, _old_v, new_v) => seq![
            FixAction::Pin(p.name, new_v),
            FixAction::ReportBug(p.name),
            FixAction::DoNothing,
        ],
    }
}

/// Enumerates the valid fix options for the identified culprit, ordered by
/// recommendation priority. Deterministic and pure; executing the choice is
/// left to an external executor.
pub fn candidate_actions(culprit: &PackageChange) -> (r: Vec<FixAction>)
    ensures
        r@ == spec_candidate_actions(*culprit),
{
    let mut options: Vec<FixAction> = Vec::new();

    match culprit {
        PackageChange::Added(pkg) => {
            options.push(FixAction::Remove(pkg.name.clone()));
            options.push(FixAction::ReportBug(pkg.name.clone()));
        },
        PackageChange::Removed(pkg) => {
            options.push(FixAction::ReportBug(pkg.name.clone()));
        },
        PackageChange::Upgraded(pkg, old_ver, _new_ver) => {
            options.push(FixAction::Downgrade(pkg.name.clone(), old_ver.clone()));
            options.push(FixAction::Pin(pkg.name.clone(), old_ver.clone()));
            options.push(FixAction::Remove(pkg.name.clone()));
            options.push(FixAction::ReportBug(pkg.name.clone()));
        },
        PackageChange::Downgraded(pkg, _old_ver, new_ver) => {
            options.push(FixAction::Pin(pkg.name.clone(), new_ver.clone()));
            options.push(FixAction::ReportBug(pkg.name.clone()));
        },
    }

    options.push(FixAction::DoNothing);
    proof {
        assert(options@ =~= spec_candidate_actions(*culprit));
    }
    options
}

/// Law: whatever the change kind, the candidate list ends with reporting a
/// bug for the changed package, followed by doing nothing.
pub proof fn lemma_actions_end_with_report_then_nothing(c: PackageChange)
    ensures
        spec_candidate_actions(c).len() >= 2,
        spec_candidate_actions(c)[spec_candidate_actions(c).len() - 2] == FixAction::ReportBug(
            c.spec_package().name),
        spec_candidate_actions(c).last() == FixAction::DoNothing,
{
}

/// Law: the candidates for an upgrade begin with a downgrade of the package
/// to its old version.
pub proof fn lemma_upgrade_actions_begin_with_downgrade(p: Package, old_v: String, new_v: String)
    ensures
        spec_candidate_actions(PackageChange::Upgraded(p, old_v, new_v))[0]
            == FixAction::Downgrade(p.name, old_v),
{
}

/// Law: the candidates for an added package contain its removal.
pub proof fn lemma_added_actions_contain_remove(p: Package)
    ensures
        spec_candidate_actions(PackageChange::Added(p)).contains(FixAction::Remove(p.name)),
{
    assert(spec_candidate_actions(PackageChange::Added(p))[0] == FixAction::Remove(p.name));
}

} // verus!
