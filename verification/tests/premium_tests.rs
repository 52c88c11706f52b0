use eshu_trace::{
    apply_activation, apply_premium_grant, check_can_trace, emails_match, get_eshu_premium_url,
    get_upgrade_url, increment_trace_usage, is_premium, license_accepted, LicenseType,
    TraceLicense, FREE_TRACE_LIMIT,
};

#[test]
fn fresh_license_is_a_trial() {
    let license = TraceLicense::default();
    assert_eq!(license.license_type, LicenseType::Trial);
    assert_eq!(license.traces_used, 0);
    assert!(license.license_key.is_none());
    assert!(license.email.is_none());
    assert!(license.activated_at.is_none());
}

#[test]
fn trial_allows_the_free_limit_and_no_more() {
    let mut license = TraceLicense::default();
    for _ in 0..FREE_TRACE_LIMIT {
        assert!(license.can_trace());
        license.increment_usage();
    }
    assert_eq!(license.traces_used, FREE_TRACE_LIMIT);
    assert!(!license.can_trace());
    assert!(!check_can_trace(&license));
}

#[test]
fn remaining_traces_counts_down_for_a_trial() {
    let mut license = TraceLicense::default();
    assert_eq!(license.remaining_traces(), Some(FREE_TRACE_LIMIT));
    license.increment_usage();
    assert_eq!(license.remaining_traces(), Some(FREE_TRACE_LIMIT - 1));
    license.traces_used = FREE_TRACE_LIMIT + 5;
    assert_eq!(license.remaining_traces(), Some(0));
}

#[test]
fn paid_licenses_are_unlimited() {
    let mut license = TraceLicense::default();
    license.license_type = LicenseType::Standalone;
    license.traces_used = 1000;
    assert!(license.can_trace());
    assert!(license.remaining_traces().is_none());
    license.license_type = LicenseType::Premium;
    assert!(license.can_trace());
    assert!(license.remaining_traces().is_none());
}

#[test]
fn is_premium_distinguishes_paid_from_trial() {
    let mut license = TraceLicense::default();
    assert!(!is_premium(&license));
    license.license_type = LicenseType::Standalone;
    assert!(is_premium(&license));
    license.license_type = LicenseType::Premium;
    assert!(is_premium(&license));
}

#[test]
fn increment_trace_usage_touches_only_the_count() {
    let mut license = TraceLicense::default();
    license.email = Some("a@b.c".to_string());
    increment_trace_usage(&mut license);
    assert_eq!(license.traces_used, 1);
    assert_eq!(license.email, Some("a@b.c".to_string()));
    assert_eq!(license.license_type, LicenseType::Trial);
}

#[test]
fn activation_records_key_email_and_time() {
    let mut license = TraceLicense::default();
    license.traces_used = 2;
    let activated = apply_activation(
        license,
        "KEY-123".to_string(),
        "user@example.com".to_string(),
        "2024-01-01T00:00:00Z".to_string(),
    );
    assert_eq!(activated.license_key, Some("KEY-123".to_string()));
    assert_eq!(activated.email, Some("user@example.com".to_string()));
    assert_eq!(activated.activated_at, Some("2024-01-01T00:00:00Z".to_string()));
    assert_eq!(activated.license_type, LicenseType::Standalone);
    assert_eq!(activated.traces_used, 2);
}

#[test]
fn premium_grant_raises_the_license_kind() {
    let mut license = TraceLicense::default();
    license.traces_used = 1;
    let granted = apply_premium_grant(license);
    assert_eq!(granted.license_type, LicenseType::Premium);
    assert_eq!(granted.traces_used, 1);
}

#[test]
fn emails_match_is_case_insensitive() {
    assert!(emails_match("User@Example.COM", "user@example.com"));
    assert!(emails_match("abc", "ABC"));
    assert!(!emails_match("a@x", "b@x"));
}

#[test]
fn license_acceptance_follows_the_service_answer() {
    assert!(!license_accepted(false, &None, "user@example.com"));
    assert!(license_accepted(true, &None, "user@example.com"));
    assert!(license_accepted(
        true,
        &Some("User@Example.com".to_string()),
        "user@example.com"
    ));
    assert!(!license_accepted(
        true,
        &Some("other@example.com".to_string()),
        "user@example.com"
    ));
}

#[test]
fn purchase_urls_are_fixed() {
    assert_eq!(get_upgrade_url(), "https://eshuapps.gumroad.com/l/eshu-trace");
    assert_eq!(get_eshu_premium_url(), "https://eshuapps.gumroad.com/l/eshu-premium");
}
