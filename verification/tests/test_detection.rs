use trust_sentinel::detect::{diff, exceeds_scan_threshold, SCAN_THRESHOLD};
use trust_sentinel::state::SystemState;

fn snapshot(dns: Vec<String>, hosts_hash: &str) -> SystemState {
    SystemState {
        dns_servers: dns,
        hosts_hash: hosts_hash.to_string(),
        startup_entries: vec!["OneDrive".to_string()],
        listening_ports: vec!["0.0.0.0:135".to_string()],
        firewall_profiles: vec!["Domain:ON".to_string()],
        arp_table: vec!["192.168.1.1  aa-bb-cc-dd-ee-ff  dynamic".to_string()],
        wifi_ssid: "HomeNet".to_string(),
    }
}

fn online_dns() -> Vec<String> {
    vec!["8.8.8.8".to_string(), "1.1.1.1".to_string()]
}

#[test]
fn test_dns_diff_detects_change() {
    let old = vec!["8.8.8.8".to_string()];
    let new = vec!["1.1.1.1".to_string()];
    assert!(old != new);
    let d = diff(&snapshot(old, "h"), &snapshot(new, "h"), "HomeNet", &online_dns());
    assert_eq!(d, vec![("dns_change".to_string(), "DNS changed".to_string())]);
}

#[test]
fn test_dns_same_passes() {
    let old = vec!["8.8.8.8".to_string()];
    let new = vec!["8.8.8.8".to_string()];
    assert!(old == new);
    let d = diff(&snapshot(old, "h"), &snapshot(new, "h"), "HomeNet", &online_dns());
    assert!(d.is_empty());
}

#[test]
fn test_hosts_hash_changes() {
    let old_hash = "abc123";
    let new_hash = "def456";
    assert!(old_hash != new_hash);
    let dns = vec!["8.8.8.8".to_string()];
    let d = diff(&snapshot(dns.clone(), old_hash), &snapshot(dns, new_hash), "HomeNet", &online_dns());
    assert_eq!(d, vec![("hosts_change".to_string(), "Hosts modified".to_string())]);
}

#[test]
fn test_port_scan_threshold() {
    let threshold = 50;
    assert!(51 > threshold);
    assert!(10 < threshold);
    assert_eq!(SCAN_THRESHOLD, threshold);
    assert!(exceeds_scan_threshold(51));
    assert!(!exceeds_scan_threshold(10));
    assert!(!exceeds_scan_threshold(50));
}

#[test]
fn diff_is_silent_while_offline() {
    let a = snapshot(vec!["8.8.8.8".to_string()], "a");
    let b = snapshot(vec!["1.1.1.1".to_string()], "b");
    let d = diff(&a, &b, "Unknown", &vec!["Unknown".to_string()]);
    assert!(d.is_empty());
    // Two DNS servers mean the device is online even without a Wi-Fi name.
    let d = diff(&a, &b, "Unknown", &online_dns());
    assert_eq!(d.len(), 2);
}

#[test]
fn diff_reports_every_setting_in_order() {
    let a = snapshot(vec!["8.8.8.8".to_string()], "a");
    let mut b = snapshot(vec!["9.9.9.9".to_string()], "b");
    b.startup_entries = vec!["Evil".to_string()];
    b.listening_ports = vec!["0.0.0.0:4444".to_string()];
    b.firewall_profiles = vec!["Domain:OFF".to_string()];
    b.arp_table = vec!["None".to_string()];
    b.wifi_ssid = "CafeWifi".to_string();
    let d = diff(&a, &b, "CafeWifi", &online_dns());
    let kinds: Vec<&str> = d.iter().map(|p| p.0.as_str()).collect();
    assert_eq!(
        kinds,
        vec![
            "dns_change",
            "hosts_change",
            "startup_change",
            "port_change",
            "firewall_change",
            "arp_change",
            "wifi_change"
        ]
    );
    assert_eq!(d[6].1, "WiFi: CafeWifi");
}

#[test]
fn diff_of_a_snapshot_with_itself_is_empty() {
    let a = snapshot(vec!["8.8.8.8".to_string()], "a");
    assert!(diff(&a, &a, "HomeNet", &online_dns()).is_empty());
}
