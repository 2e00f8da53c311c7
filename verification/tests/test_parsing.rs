use trust_sentinel::detect::{
    check_phishing, check_ransomware, detect_port_scan, netstat_is_readable, parse_blocklist,
};
use trust_sentinel::state::{
    collect_state, get_arp, get_dns, get_firewall, get_ports, get_startup, get_wifi, check_usb,
    Readings,
};

fn netstat(rows: &[String]) -> String {
    let mut s = String::from(
        "\r\nActive Connections\r\n\r\n  Proto  Local Address          Foreign Address        State           PID\r\n",
    );
    for r in rows {
        s.push_str(r);
        s.push_str("\r\n");
    }
    s
}

#[test]
fn dns_servers_are_split_trimmed_and_deduplicated() {
    let out = "8.8.8.8, 1.1.1.1\r\n8.8.8.8\r\n\r\n,9.9.9.9,\r\n";
    assert_eq!(get_dns(out), vec!["8.8.8.8", "1.1.1.1", "9.9.9.9"]);
}

#[test]
fn dns_without_output_is_unknown() {
    assert_eq!(get_dns(""), vec!["Unknown"]);
    assert_eq!(get_dns(" \r\n , \r\n"), vec!["Unknown"]);
}

#[test]
fn startup_lists_files_then_run_values() {
    let files = vec!["app.lnk".to_string()];
    assert_eq!(get_startup(&files, "OneDrive\r\n  \r\nSecurityHealth \r\n"), vec![
        "app.lnk",
        "OneDrive",
        "SecurityHealth",
    ]);
    assert_eq!(get_startup(&Vec::new(), ""), vec!["None"]);
}

#[test]
fn listening_ports_are_sorted_and_unique() {
    let out = netstat(&[
        "  TCP    0.0.0.0:445            0.0.0.0:0              LISTENING       4".to_string(),
        "  TCP    0.0.0.0:135            0.0.0.0:0              LISTENING       1000".to_string(),
        "  TCP    0.0.0.0:445            0.0.0.0:0              LISTENING       4".to_string(),
        "  TCP    127.0.0.1:12789        0.0.0.0:0              LISTENING       77".to_string(),
        "  TCP    0.0.0.0:0              0.0.0.0:0              LISTENING       9".to_string(),
        "  TCP    10.0.0.2:50000         1.2.3.4:443            ESTABLISHED     55".to_string(),
    ]);
    assert_eq!(get_ports(&out), vec!["0.0.0.0:135", "0.0.0.0:445"]);
}

#[test]
fn header_lines_are_skipped() {
    let out = "  TCP    0.0.0.0:1            0.0.0.0:0              LISTENING       4\r\n";
    assert!(get_ports(out).is_empty());
}

#[test]
fn firewall_and_arp_and_wifi() {
    assert_eq!(get_firewall("Domain:ON\r\nPrivate:OFF\r\n"), vec!["Domain:ON", "Private:OFF"]);
    assert_eq!(get_firewall(""), vec!["Unknown"]);
    let arp = "\r\nInterface: 192.168.1.5 --- 0x4\r\n  Internet Address      Physical Address      Type\r\n  192.168.1.1           aa-bb-cc-dd-ee-ff     dynamic   \r\n  224.0.0.22            01-00-5e-00-00-16     static    \r\n";
    assert_eq!(get_arp(arp), vec![
        "192.168.1.1           aa-bb-cc-dd-ee-ff     dynamic",
        "224.0.0.22            01-00-5e-00-00-16     static",
    ]);
    assert_eq!(get_arp("nothing here\r\n"), vec!["None"]);
    assert_eq!(get_wifi("  HomeNet \r\n"), "HomeNet");
    assert_eq!(get_wifi("\r\n"), "Unknown");
    assert_eq!(check_usb(" SanDisk Cruzer Flash Drive\r\n"), "SanDisk Cruzer Flash Drive");
    assert_eq!(check_usb(""), "");
}

#[test]
fn port_scan_needs_more_than_threshold_connections() {
    let mut rows = Vec::new();
    for i in 0..51 {
        rows.push(format!("  TCP    10.0.0.2:{}   203.0.113.9:{}   ESTABLISHED     1", 50000 + i, 1000 + i));
    }
    for i in 0..60 {
        rows.push(format!("  TCP    10.0.0.2:{}   192.168.1.7:{}   ESTABLISHED     1", 40000 + i, 1000 + i));
    }
    let out = netstat(&rows);
    assert!(netstat_is_readable(&out));
    assert_eq!(detect_port_scan(&out), "203.0.113.9");
    let out50 = netstat(&rows[1..51].to_vec());
    assert_eq!(detect_port_scan(&out50), "");
}

#[test]
fn port_scan_reads_ipv6_hosts_and_ignores_rows_without_port() {
    let mut rows = Vec::new();
    for _ in 0..51 {
        rows.push("  TCP    [::1]:5000   [2001:db8::1]:443   ESTABLISHED     1".to_string());
        rows.push("  TCP    [::1]:5000   noport   ESTABLISHED     1".to_string());
    }
    assert_eq!(detect_port_scan(&netstat(&rows)), "[2001:db8::1]");
}

#[test]
fn netstat_rows_of_three_words_are_not_readable() {
    let out = netstat(&["  TCP  a  b".to_string()]);
    assert!(!netstat_is_readable(&out));
}

#[test]
fn blocklist_and_phishing() {
    let list = parse_blocklist("# comment\n0.0.0.0 Evil.Example.com\n127.0.0.1 phish.test # x\n1.2.3.4 other.test\n0.0.0.0\n");
    assert_eq!(list, vec!["evil.example.com", "phish.test"]);
    let cache = "good.example.org\r\n  EVIL.example.com \r\nphish.test\r\n";
    assert_eq!(check_phishing(&list, cache), "evil.example.com");
    assert_eq!(check_phishing(&list, "good.example.org\r\n"), "");
}

#[test]
fn ransomware_threshold_is_five_recent_canaries() {
    let four = vec![Some(1), Some(2), Some(3), Some(29), Some(30)];
    assert!(!check_ransomware(&four));
    let five = vec![Some(0), Some(1), Some(2), Some(3), Some(4)];
    assert!(check_ransomware(&five));
    let unreadable = vec![None, Some(1), Some(1), Some(1), Some(1)];
    assert!(!check_ransomware(&unreadable));
}

#[test]
fn collect_state_parses_every_reading() {
    let r = Readings {
        dns_output: "8.8.8.8\r\n".to_string(),
        hosts_content: Some(b"127.0.0.1 localhost\n".to_vec()),
        startup_files: vec![],
        run_key_output: String::new(),
        netstat_output: String::new(),
        firewall_output: "Public:ON\r\n".to_string(),
        arp_output: String::new(),
        wifi_output: "Cafe\r\n".to_string(),
    };
    let s = collect_state(&r);
    assert_eq!(s.dns_servers, vec!["8.8.8.8"]);
    assert_eq!(s.hosts_hash, "081ef9d5367595d16e30b4b4549d9f43537320508b4ce0788963e10e4f808857");
    assert_eq!(s.startup_entries, vec!["None"]);
    assert!(s.listening_ports.is_empty());
    assert_eq!(s.firewall_profiles, vec!["Public:ON"]);
    assert_eq!(s.arp_table, vec!["None"]);
    assert_eq!(s.wifi_ssid, "Cafe");
    let r2 = Readings { hosts_content: None, ..r };
    assert_eq!(collect_state(&r2).hosts_hash, "unreadable");
}

#[test]
fn same_readings_give_the_same_snapshot_and_no_change() {
    let make = || Readings {
        dns_output: "8.8.8.8,1.1.1.1\r\n".to_string(),
        hosts_content: Some(b"127.0.0.1 localhost\n".to_vec()),
        startup_files: vec!["a.lnk".to_string()],
        run_key_output: "OneDrive\r\n".to_string(),
        netstat_output: String::new(),
        firewall_output: "Public:ON\r\n".to_string(),
        arp_output: String::new(),
        wifi_output: "Home\r\n".to_string(),
    };
    let s1 = collect_state(&make());
    let s2 = collect_state(&make());
    assert_eq!(s1.hosts_hash.len(), 64);
    let d = trust_sentinel::detect::diff(&s1, &s2, "Home", &s1.dns_servers);
    assert!(d.is_empty());
}
