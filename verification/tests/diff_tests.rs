use eshu_trace::{compute_diff, dedup_packages, Package, PackageChange};

fn pkg(name: &str, version: &str) -> Package {
    Package { name: name.to_string(), version: version.to_string() }
}

#[test]
fn diff_of_identical_states_is_empty() {
    let a = vec![pkg("foo", "1.0"), pkg("bar", "2.0")];
    let d = compute_diff(&a, &a);
    assert!(d.added.is_empty());
    assert!(d.removed.is_empty());
    assert!(d.upgraded.is_empty());
    assert!(d.downgraded.is_empty());
    assert_eq!(d.total_changes(), 0);
}

#[test]
fn diff_of_reordered_equal_states_is_empty() {
    let a = vec![pkg("foo", "1.0"), pkg("bar", "2.0"), pkg("baz", "3.0")];
    let b = vec![pkg("baz", "3.0"), pkg("foo", "1.0"), pkg("bar", "2.0")];
    let d = compute_diff(&a, &b);
    assert_eq!(d.total_changes(), 0);
}

#[test]
fn end_to_end_example() {
    let a = vec![pkg("foo", "1.0"), pkg("bar", "2.0")];
    let b = vec![pkg("foo", "1.1"), pkg("bar", "2.0"), pkg("baz", "1.0")];
    let d = compute_diff(&a, &b);
    assert_eq!(d.added, vec![pkg("baz", "1.0")]);
    assert!(d.removed.is_empty());
    assert_eq!(
        d.upgraded,
        vec![(pkg("foo", "1.1"), "1.0".to_string(), "1.1".to_string())]
    );
    assert!(d.downgraded.is_empty());
    assert_eq!(d.total_changes(), 2);
}

#[test]
fn one_change_of_each_kind() {
    let a = vec![pkg("gone", "1"), pkg("up", "1.0"), pkg("down", "2.0"), pkg("same", "1")];
    let b = vec![pkg("up", "2.0"), pkg("down", "1.0"), pkg("same", "1"), pkg("new", "1")];
    let d = compute_diff(&a, &b);
    assert_eq!(d.added, vec![pkg("new", "1")]);
    assert_eq!(d.removed, vec![pkg("gone", "1")]);
    assert_eq!(d.upgraded, vec![(pkg("up", "2.0"), "1.0".to_string(), "2.0".to_string())]);
    assert_eq!(d.downgraded, vec![(pkg("down", "1.0"), "2.0".to_string(), "1.0".to_string())]);
    assert_eq!(d.total_changes(), 4);

    // The four collections name pairwise disjoint sets, and together exactly
    // the names whose presence or version differs.
    let mut names: Vec<String> = Vec::new();
    for p in &d.added {
        names.push(p.name.clone());
    }
    for p in &d.removed {
        names.push(p.name.clone());
    }
    for (p, _, _) in &d.upgraded {
        names.push(p.name.clone());
    }
    for (p, _, _) in &d.downgraded {
        names.push(p.name.clone());
    }
    let mut sorted = names.clone();
    sorted.sort();
    sorted.dedup();
    assert_eq!(sorted.len(), names.len());
    assert_eq!(sorted, vec!["down", "gone", "new", "up"]);
    assert!(!names.contains(&"same".to_string()));
}

#[test]
fn total_changes_zero_iff_states_equal() {
    let a = vec![pkg("foo", "1.0")];
    let b = vec![pkg("foo", "1.1")];
    assert!(compute_diff(&a, &b).total_changes() > 0);
    assert!(compute_diff(&a, &a).total_changes() == 0);
}

#[test]
fn all_changes_order_is_added_removed_upgraded_downgraded() {
    let a = vec![pkg("gone", "1"), pkg("up", "1.0")];
    let b = vec![pkg("up", "2.0"), pkg("new", "1")];
    let d = compute_diff(&a, &b);
    let changes = d.all_changes();
    assert_eq!(changes.len(), 3);
    assert_eq!(changes[0], PackageChange::Added(pkg("new", "1")));
    assert_eq!(changes[1], PackageChange::Removed(pkg("gone", "1")));
    assert_eq!(
        changes[2],
        PackageChange::Upgraded(pkg("up", "2.0"), "1.0".to_string(), "2.0".to_string())
    );
}

#[test]
fn change_name_matches_package() {
    let c = PackageChange::Upgraded(pkg("foo", "1.1"), "1.0".to_string(), "1.1".to_string());
    assert_eq!(c.name(), "foo");
    let c = PackageChange::Removed(pkg("bar", "2"));
    assert_eq!(c.name(), "bar");
}

#[test]
fn dedup_keeps_last_version_per_name() {
    let pairs = vec![pkg("x", "1"), pkg("y", "2"), pkg("x", "3")];
    let state = dedup_packages(&pairs);
    assert_eq!(state.len(), 2);
    let x = state.iter().find(|p| p.name == "x").unwrap();
    assert_eq!(x.version, "3");
    let y = state.iter().find(|p| p.name == "y").unwrap();
    assert_eq!(y.version, "2");
}

#[test]
fn dedup_of_empty_listing_is_empty() {
    let state = dedup_packages(&Vec::new());
    assert!(state.is_empty());
}
