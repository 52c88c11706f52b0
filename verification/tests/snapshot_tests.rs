use eshu_trace::{
    get_packages_for_snapshot, sort_snapshots_by_date, Package, Snapshot, SnapshotManager,
    TestRunner, TraceError,
};

fn snap(id: &str, created_at: &str) -> Snapshot {
    Snapshot {
        id: id.to_string(),
        created_at: created_at.to_string(),
        description: None,
        packages: None,
        package_count: None,
    }
}

#[test]
fn backend_priority_is_timeshift_snapper_btrfs() {
    assert_eq!(SnapshotManager::new(true, true, true).unwrap().backend_name(), "Timeshift");
    assert_eq!(SnapshotManager::new(false, true, true).unwrap().backend_name(), "Snapper");
    assert_eq!(SnapshotManager::new(false, false, true).unwrap().backend_name(), "BTRFS");
    assert_eq!(
        SnapshotManager::new(false, false, false).err(),
        Some(TraceError::NoSnapshotBackend)
    );
}

#[test]
fn get_snapshot_finds_by_id() {
    let mgr = SnapshotManager::new(true, false, false).unwrap();
    let listing = vec![snap("a", "2024-01-01"), snap("b", "2024-01-02")];
    let found = mgr.get_snapshot(&listing, &"b".to_string()).unwrap();
    assert_eq!(found.id, "b");
    assert_eq!(found.created_at, "2024-01-02");
    assert_eq!(
        mgr.get_snapshot(&listing, &"c".to_string()).err(),
        Some(TraceError::SnapshotNotFound)
    );
}

#[test]
fn stored_packages_are_handed_out() {
    let mut s = snap("a", "2024-01-01");
    assert!(get_packages_for_snapshot(&s).is_none());
    s.packages = Some(vec![Package { name: "foo".to_string(), version: "1".to_string() }]);
    let ps = get_packages_for_snapshot(&s).unwrap();
    assert_eq!(ps.len(), 1);
    assert_eq!(ps[0].name, "foo");
}

#[test]
fn timeshift_listing_is_parsed() {
    let mgr = SnapshotManager::new(true, false, false).unwrap();
    let output = "Device : /dev/sda2\n\
                  # comment with @ sign\n\
                  @2024-01-01_12-00  2024-01-01  12:00\n\
                  @lonely\n\
                  no at sign here\n\
                  @2024-01-02_08-30 2024-01-02 08:30\n";
    let snaps = mgr.list_timeshift_snapshots(output);
    assert_eq!(snaps.len(), 2);
    assert_eq!(snaps[0].id, "2024-01-01_12-00");
    assert_eq!(snaps[0].created_at, "2024-01-01 12:00");
    assert!(snaps[0].description.is_none());
    assert_eq!(snaps[1].id, "2024-01-02_08-30");
    assert_eq!(snaps[1].created_at, "2024-01-02 08:30");
}

#[test]
fn snapper_listing_is_parsed() {
    let mgr = SnapshotManager::new(false, true, false).unwrap();
    let output = " # | Type   | Pre # | Date       | Description\n\
                  ---+--------+-------+------------+------------\n\
                   1 | single |       | 2024-01-01 | first snap\n\
                  2 | single |       | 2024-01-02 | \n\
                  short | line\n";
    let snaps = mgr.list_snapper_snapshots(output);
    assert_eq!(snaps.len(), 2);
    assert_eq!(snaps[0].id, "1");
    assert_eq!(snaps[0].created_at, "2024-01-01");
    assert_eq!(snaps[0].description, Some("first snap".to_string()));
    assert_eq!(snaps[1].id, "2");
    assert_eq!(snaps[1].created_at, "2024-01-02");
    assert!(snaps[1].description.is_none());
}

#[test]
fn snapshots_sort_newest_first() {
    let listing = vec![
        snap("b", "2024-01-02 08:00:00"),
        snap("a", "2024-01-01 12:00:00"),
        snap("c", "2024-03-01 00:00:00"),
        snap("a2", "2024-01-01 12:00:00"),
    ];
    let sorted = sort_snapshots_by_date(listing);
    assert_eq!(sorted.len(), 4);
    assert_eq!(sorted[0].id, "c");
    assert_eq!(sorted[1].id, "b");
    for w in sorted.windows(2) {
        assert!(w[0].created_at >= w[1].created_at);
    }
}

#[test]
fn automated_test_runs_need_a_paid_license() {
    let runner = TestRunner::new(Some("systemctl is-system-running".to_string()));
    assert_eq!(runner.run_test().err(), Some(TraceError::PremiumRequired));
    let runner = TestRunner::new(None);
    assert_eq!(runner.run_test().err(), Some(TraceError::PremiumRequired));
}

#[test]
fn error_messages_are_stable() {
    assert_eq!(TraceError::EmptyChangeSet.message(), "no package changes to bisect");
    assert_eq!(TraceError::OracleFailure.message(), "the test oracle failed");
    assert_eq!(TraceError::NoSnapshotBackend.message(), "no snapshot backend detected");
    assert_eq!(TraceError::SnapshotNotFound.message(), "snapshot not found");
    assert_eq!(TraceError::TrialLimitReached.message(), "trial limit reached");
    assert_eq!(TraceError::PremiumRequired.message(), "this feature requires a license");
    assert_eq!(TraceError::SystemNotMounted.message(), "system not mounted");
}
