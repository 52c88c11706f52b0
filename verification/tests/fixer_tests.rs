use eshu_trace::{candidate_actions, FixAction, Package, PackageChange};

fn pkg(name: &str, version: &str) -> Package {
    Package { name: name.to_string(), version: version.to_string() }
}

#[test]
fn upgrade_actions_begin_with_downgrade() {
    let c = PackageChange::Upgraded(pkg("foo", "1.1"), "1.0".to_string(), "1.1".to_string());
    let actions = candidate_actions(&c);
    assert_eq!(actions[0], FixAction::Downgrade("foo".to_string(), "1.0".to_string()));
    assert_eq!(
        actions,
        vec![
            FixAction::Downgrade("foo".to_string(), "1.0".to_string()),
            FixAction::Pin("foo".to_string(), "1.0".to_string()),
            FixAction::Remove("foo".to_string()),
            FixAction::ReportBug("foo".to_string()),
            FixAction::DoNothing,
        ]
    );
}

#[test]
fn added_actions_contain_remove_and_end_with_report_then_nothing() {
    let c = PackageChange::Added(pkg("baz", "1.0"));
    let actions = candidate_actions(&c);
    assert!(actions.contains(&FixAction::Remove("baz".to_string())));
    let n = actions.len();
    assert_eq!(actions[n - 2], FixAction::ReportBug("baz".to_string()));
    assert_eq!(actions[n - 1], FixAction::DoNothing);
}

#[test]
fn removed_actions_offer_no_reinstatement() {
    let c = PackageChange::Removed(pkg("gone", "0.9"));
    let actions = candidate_actions(&c);
    assert_eq!(
        actions,
        vec![FixAction::ReportBug("gone".to_string()), FixAction::DoNothing]
    );
}

#[test]
fn downgrade_actions_pin_the_new_version() {
    let c = PackageChange::Downgraded(pkg("bar", "1.0"), "2.0".to_string(), "1.0".to_string());
    let actions = candidate_actions(&c);
    assert_eq!(
        actions,
        vec![
            FixAction::Pin("bar".to_string(), "1.0".to_string()),
            FixAction::ReportBug("bar".to_string()),
            FixAction::DoNothing,
        ]
    );
}

#[test]
fn every_kind_ends_with_report_then_nothing() {
    let kinds = vec![
        PackageChange::Added(pkg("p", "1")),
        PackageChange::Removed(pkg("p", "1")),
        PackageChange::Upgraded(pkg("p", "2"), "1".to_string(), "2".to_string()),
        PackageChange::Downgraded(pkg("p", "1"), "2".to_string(), "1".to_string()),
    ];
    for c in kinds {
        let actions = candidate_actions(&c);
        let n = actions.len();
        assert!(n >= 2);
        assert_eq!(actions[n - 2], FixAction::ReportBug("p".to_string()));
        assert_eq!(actions[n - 1], FixAction::DoNothing);
    }
}
