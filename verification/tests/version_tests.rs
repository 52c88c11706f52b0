use eshu_trace::version_compare;

#[test]
fn upgrade_simple() {
    assert_eq!(version_compare("2.0", "1.9"), true);
}

#[test]
fn downgrade_simple() {
    assert_eq!(version_compare("1.9", "2.0"), false);
}

#[test]
fn more_components_at_equal_prefix_wins() {
    assert_eq!(version_compare("1.2.0", "1.2"), true);
    assert_eq!(version_compare("1.2", "1.2.0"), false);
}

#[test]
fn non_numeric_token_dropped() {
    assert_eq!(version_compare("1.0-rc1", "1.0"), false);
    assert_eq!(version_compare("1.0", "1.0-rc1"), false);
}

#[test]
fn equal_versions_not_upgrade() {
    assert_eq!(version_compare("1.2.3", "1.2.3"), false);
}

#[test]
fn empty_strings() {
    assert_eq!(version_compare("", ""), false);
    assert_eq!(version_compare("1", ""), true);
    assert_eq!(version_compare("", "1"), false);
}

#[test]
fn no_numeric_tokens_compare_empty() {
    assert_eq!(version_compare("alpha", "beta"), false);
    assert_eq!(version_compare("1.0", "alpha"), true);
}

#[test]
fn all_delimiters_split() {
    assert_eq!(version_compare("1_2-3", "1.2.2"), true);
    assert_eq!(version_compare("1-2_3", "1.2.4"), false);
}

#[test]
fn first_differing_component_decides() {
    assert_eq!(version_compare("1.10", "1.9"), true);
    assert_eq!(version_compare("10.0", "9.9.9"), true);
}

#[test]
fn oversized_token_dropped() {
    // A token too large for a version component does not parse and is
    // dropped, like any non-numeric token.
    assert_eq!(version_compare("1.99999999999999999999", "1"), false);
    assert_eq!(version_compare("1.99999999999999999999.1", "1"), true);
}
