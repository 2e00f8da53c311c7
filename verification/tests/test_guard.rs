use trust_sentinel::guard::{
    auto_stealth_action, hosts_needs_restore, needs_repair, repair_report, response_event,
    untrusted_startup, Response, ScanBlocker, StealthAction,
};

#[test]
fn repair_runs_only_on_changes_outside_stealth() {
    let d = vec![("dns_change".to_string(), "DNS changed".to_string())];
    assert!(needs_repair(false, &d));
    assert!(!needs_repair(true, &d));
    assert!(!needs_repair(false, &Vec::new()));
}

#[test]
fn hosts_restore_rule() {
    assert!(hosts_needs_restore(Some("a"), Some("b")));
    assert!(!hosts_needs_restore(Some("a"), Some("a")));
    assert!(hosts_needs_restore(Some("a"), None));
    assert!(!hosts_needs_restore(Some(""), None));
    assert!(!hosts_needs_restore(None, Some("b")));
}

#[test]
fn untrusted_entries_and_report() {
    let current: Vec<String> = ["OneDrive", "Evil", "None", "Evil", "Other"].iter().map(|s| s.to_string()).collect();
    let trusted = vec!["OneDrive".to_string()];
    let bad = untrusted_startup(&current, &trusted);
    assert_eq!(bad, vec!["Evil", "Other"]);
    let r = repair_report(true, true, false, true, true, &bad);
    assert_eq!(r, vec![
        "auto_repair: Hosts restored",
        "auto_repair: DNS reset",
        "auto_repair: Firewall re-enabled",
        "auto_repair: ARP flushed",
        "auto_repair: Removed startup: Evil",
        "auto_repair: Removed startup: Other",
    ]);
}

#[test]
fn home_network_rule() {
    assert_eq!(auto_stealth_action(None, "HomeNet"), StealthAction::Nothing);
    assert_eq!(auto_stealth_action(Some("  \n"), "HomeNet"), StealthAction::Nothing);
    assert_eq!(auto_stealth_action(Some("HomeNet\n"), "HomeNet"), StealthAction::StealthOff);
    assert_eq!(auto_stealth_action(Some("HomeNet"), "CafeWifi"), StealthAction::ResetAndStealthOn);
    assert_eq!(auto_stealth_action(Some("HomeNet"), "Unknown"), StealthAction::Nothing);
}

#[test]
fn blocker_blocks_each_scanner_once_and_stays_bounded() {
    let mut b = ScanBlocker::new();
    assert!(!b.observe(""));
    assert!(b.observe("203.0.113.9"));
    assert!(!b.observe("203.0.113.9"));
    for i in 0..49 {
        assert!(b.observe(&format!("198.51.100.{}", i)));
    }
    // 50 remembered: the next new one is blocked and the memory starts over.
    assert!(b.observe("198.51.100.200"));
    assert!(b.observe("203.0.113.9"));
}

#[test]
fn response_events() {
    assert_eq!(response_event(Response::ScannerBlocked, "1.2.3.4"), "auto_block: 1.2.3.4 blocked");
    assert_eq!(response_event(Response::UsbDisabled, "Flash"), "auto_eject: Flash disabled");
    assert_eq!(response_event(Response::NetworkKilled, ""), "auto_kill: Network disabled - ransomware detected!");
    assert_eq!(response_event(Response::DnsCacheCleared, ""), "auto_repair: DNS cache cleared");
    assert_eq!(response_event(Response::BlocklistUpdated, ""), "phishing_list: Updated to latest version");
}
