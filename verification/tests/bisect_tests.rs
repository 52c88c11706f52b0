use eshu_trace::{
    simulate_monotonic_bisect, BisectSession, Package, PackageChange, TraceError,
};

fn pkg(name: &str, version: &str) -> Package {
    Package { name: name.to_string(), version: version.to_string() }
}

fn changes(n: usize) -> Vec<PackageChange> {
    let mut v = Vec::new();
    for i in 0..n {
        v.push(PackageChange::Added(pkg(&format!("pkg{}", i), "1.0")));
    }
    v
}

fn log2_ceil(n: usize) -> usize {
    let mut steps = 0;
    let mut w = n;
    while w > 1 {
        w = (w + 1) / 2;
        steps += 1;
    }
    steps
}

#[test]
fn empty_change_list_is_rejected() {
    let r = BisectSession::from_changes(Vec::new());
    assert_eq!(r.err(), Some(TraceError::EmptyChangeSet));
}

#[test]
fn identical_states_are_rejected() {
    let a = vec![pkg("foo", "1.0"), pkg("bar", "2.0")];
    let r = BisectSession::new(&a, &a);
    assert_eq!(r.err(), Some(TraceError::EmptyChangeSet));
}

#[test]
fn monotonic_oracle_finds_culprit_within_step_bound() {
    for n in 1..=9usize {
        for k in 0..n {
            let (found, steps) = simulate_monotonic_bisect(changes(n), k);
            assert_eq!(found, k);
            assert!(steps <= log2_ceil(n));
        }
    }
}

#[test]
fn manual_stepping_converges() {
    // Four changes, true culprit at index 2; the oracle answers
    // "reproduces" iff the culprit is inside the tested prefix.
    let mut session = BisectSession::from_changes(changes(4)).unwrap();
    assert_eq!(session.total_packages(), 4);
    let culprit_index = 2usize;
    let mut steps = 0;
    while !session.found() {
        let mid = session.current_mid();
        session.step(culprit_index < mid);
        steps += 1;
        assert!(steps <= 2);
    }
    assert_eq!(session.low_index(), 2);
    assert_eq!(session.high_index(), 3);
    assert_eq!(session.culprit().name(), "pkg2");
}

#[test]
fn session_from_states_finds_added_package() {
    let good = vec![pkg("stable", "1.0")];
    let bad = vec![pkg("stable", "1.0"), pkg("broken", "2.0")];
    let session = BisectSession::new(&good, &bad).unwrap();
    assert_eq!(session.total_packages(), 1);
    assert!(session.found());
    assert_eq!(session.culprit().name(), "broken");
}

#[test]
fn step_halves_the_window() {
    let mut session = BisectSession::from_changes(changes(8)).unwrap();
    assert_eq!(session.low_index(), 0);
    assert_eq!(session.high_index(), 8);
    assert_eq!(session.current_mid(), 4);
    session.step(true);
    assert_eq!(session.low_index(), 0);
    assert_eq!(session.high_index(), 4);
    session.step(false);
    assert_eq!(session.low_index(), 2);
    assert_eq!(session.high_index(), 4);
    assert_eq!(session.change_at(2).name(), "pkg2");
}

#[test]
fn interrupted_search_resumes_from_its_window() {
    // A session abandoned at window [2, 4) resumes there and converges as
    // before.
    let mut session = BisectSession::resume(changes(8), 2, 4).unwrap();
    assert_eq!(session.low_index(), 2);
    assert_eq!(session.high_index(), 4);
    let culprit_index = 3usize;
    while !session.found() {
        let mid = session.current_mid();
        session.step(culprit_index < mid);
    }
    assert_eq!(session.culprit().name(), "pkg3");

    // A window holding no change is rejected.
    assert_eq!(
        BisectSession::resume(changes(8), 4, 4).err(),
        Some(TraceError::EmptyChangeSet)
    );
    assert_eq!(
        BisectSession::resume(changes(3), 2, 9).err(),
        Some(TraceError::EmptyChangeSet)
    );
}

#[test]
fn single_change_is_found_immediately() {
    let (found, steps) = simulate_monotonic_bisect(changes(1), 0);
    assert_eq!(found, 0);
    assert_eq!(steps, 0);
}
