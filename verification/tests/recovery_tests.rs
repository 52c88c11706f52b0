use eshu_trace::{
    contains_substr, parse_os_release_id, source_is_snapshot, RecoveryContext, RecoveryProbe,
    RecoveryType, TraceError,
};

fn probe() -> RecoveryProbe {
    RecoveryProbe {
        live_usb_markers: false,
        is_chroot: false,
        rescue_target: false,
        snapshot_boot: false,
        mounted_root: None,
    }
}

#[test]
fn normal_boot_detected() {
    let ctx = RecoveryContext::detect(probe());
    assert_eq!(ctx.recovery_type, RecoveryType::Normal);
    assert!(!ctx.is_recovery);
    assert!(!ctx.is_chroot);
    assert_eq!(ctx.system_root, "/");
}

#[test]
fn live_usb_wins_over_everything() {
    let mut p = probe();
    p.live_usb_markers = true;
    p.is_chroot = true;
    p.rescue_target = true;
    p.snapshot_boot = true;
    p.mounted_root = Some("/mnt/arch".to_string());
    let ctx = RecoveryContext::detect(p);
    assert_eq!(ctx.recovery_type, RecoveryType::LiveUSB);
    assert!(ctx.is_recovery);
    assert!(ctx.is_chroot);
    assert_eq!(ctx.system_root, "/mnt/arch");
}

#[test]
fn live_usb_without_mount_defaults_to_mnt() {
    let mut p = probe();
    p.live_usb_markers = true;
    let ctx = RecoveryContext::detect(p);
    assert_eq!(ctx.system_root, "/mnt");
}

#[test]
fn chroot_then_rescue_then_snapshot_priority() {
    let mut p = probe();
    p.is_chroot = true;
    p.rescue_target = true;
    p.snapshot_boot = true;
    assert_eq!(RecoveryContext::detect(p).recovery_type, RecoveryType::Chroot);

    let mut p = probe();
    p.rescue_target = true;
    p.snapshot_boot = true;
    assert_eq!(RecoveryContext::detect(p).recovery_type, RecoveryType::RecoveryMode);

    let mut p = probe();
    p.snapshot_boot = true;
    assert_eq!(RecoveryContext::detect(p).recovery_type, RecoveryType::SnapshotBoot);
}

#[test]
fn ensure_mounted_fails_only_on_an_unmounted_live_usb() {
    let mut p = probe();
    p.live_usb_markers = true;
    let ctx = RecoveryContext::detect(p);
    assert_eq!(ctx.ensure_mounted(false).err(), Some(TraceError::SystemNotMounted));
    assert!(ctx.ensure_mounted(true).is_ok());

    let ctx = RecoveryContext::detect(probe());
    assert!(ctx.ensure_mounted(false).is_ok());
}

#[test]
fn snapshot_sources_are_recognized() {
    assert!(source_is_snapshot("/dev/sda2[/@timeshift/snapshots/2024-01-01]"));
    assert!(source_is_snapshot("/dev/mapper/root[/snapshots/15/snapshot]"));
    assert!(!source_is_snapshot("/dev/sda2[/@root]"));
}

#[test]
fn os_release_id_is_extracted() {
    let text = "NAME=\"Arch Linux\"\nPRETTY_NAME=\"Arch Linux\"\nID=arch\nBUILD_ID=rolling\n";
    assert_eq!(parse_os_release_id(text), Some("arch".to_string()));

    let quoted = "NAME=Ubuntu\nID=\"ubuntu\"\nVERSION_ID=\"22.04\"\n";
    assert_eq!(parse_os_release_id(quoted), Some("ubuntu".to_string()));

    assert_eq!(parse_os_release_id("NAME=none\n"), None);
    assert_eq!(parse_os_release_id(""), None);
}

#[test]
fn substring_search_basics() {
    assert!(contains_substr("hello world", "lo wo"));
    assert!(contains_substr("abc", ""));
    assert!(contains_substr("abc", "abc"));
    assert!(!contains_substr("abc", "abcd"));
    assert!(!contains_substr("hello", "xyz"));
}
