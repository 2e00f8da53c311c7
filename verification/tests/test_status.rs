use trust_sentinel::status::{
    assess, check_report, decimal_bytes, forbidden_response, ok_response, reply_status,
    route_request, state_name, Reply, Route, TrustState,
};

#[test]
fn verdicts() {
    assert_eq!(assess(0, false, false, false), TrustState::Trusted);
    assert_eq!(assess(1, false, false, false), TrustState::Warning);
    assert_eq!(assess(2, false, false, false), TrustState::Compromised);
    assert_eq!(assess(0, false, true, false), TrustState::Warning);
    assert_eq!(assess(1, false, true, false), TrustState::Warning);
    assert_eq!(assess(0, true, false, false), TrustState::Compromised);
    assert_eq!(assess(0, false, false, true), TrustState::Compromised);
    assert_eq!(state_name(TrustState::Compromised), "Compromised");
}

#[test]
fn report_lists_newest_events_then_findings() {
    let events: Vec<String> = (1..=7).map(|i| format!("e{}", i)).collect();
    let st = check_report(
        0,
        "203.0.113.9",
        "evil.test",
        true,
        "Flash Drive",
        &events,
        "tok".to_string(),
        "2024-01-01T00:00:00+00:00".to_string(),
    );
    assert_eq!(st.trust_state, "Compromised");
    assert_eq!(st.token, "tok");
    assert_eq!(st.last_check, "2024-01-01T00:00:00+00:00");
    assert_eq!(st.latest_events, vec![
        "e7",
        "e6",
        "e5",
        "e4",
        "e3",
        "port_scan: 203.0.113.9 - BLOCKED",
        "phishing: evil.test - DNS cleared",
        "ransomware: Canary files modified! - Network disabled",
        "usb: Flash Drive - EJECTED",
    ]);
    let quiet = check_report(0, "", "", false, "", &vec![], "t".to_string(), "n".to_string());
    assert_eq!(quiet.trust_state, "Trusted");
    assert!(quiet.latest_events.is_empty());
}

#[test]
fn replies() {
    let st = reply_status(Reply::HomeSet, "HomeNet", "t".into(), "n".into());
    assert_eq!(st.trust_state, "Trusted");
    assert_eq!(st.latest_events, vec!["Home WiFi set: HomeNet"]);
    let st = reply_status(Reply::BaselineReset, "", "t".into(), "n".into());
    assert_eq!(st.trust_state, "Trusted");
    assert!(st.latest_events.is_empty());
    let st = reply_status(Reply::StealthOn, "", "t".into(), "n".into());
    assert_eq!((st.trust_state.as_str(), st.latest_events[0].as_str()), ("Stealth", "Stealth ON"));
    let st = reply_status(Reply::StealthOff, "", "t".into(), "n".into());
    assert_eq!((st.trust_state.as_str(), st.latest_events[0].as_str()), ("Visible", "Stealth OFF"));
    let st = reply_status(Reply::StealthActive, "", "t".into(), "n".into());
    assert_eq!(st.trust_state, "Stealth");
    assert_eq!(st.latest_events, vec!["Stealth mode active - device hidden"]);
}

#[test]
fn routing() {
    let tok = "abc";
    assert_eq!(route_request("GET / HTTP/1.1\r\n\r\n", tok), Route::Status);
    assert_eq!(route_request("POST /home HTTP/1.1\r\n\r\n", tok), Route::Forbidden);
    assert_eq!(route_request("POST /home HTTP/1.1\r\n\r\ntoken=abd", tok), Route::Forbidden);
    assert_eq!(route_request("POST /home HTTP/1.1\r\n\r\ntoken=abc", tok), Route::SetHome);
    assert_eq!(route_request("POST /reset HTTP/1.1\r\n\r\ntoken=abc", tok), Route::Reset);
    assert_eq!(route_request("POST /stealth HTTP/1.1\r\n\r\ntoken=abc", tok), Route::StealthOn);
    assert_eq!(route_request("POST /visible HTTP/1.1\r\n\r\ntoken=abc", tok), Route::StealthOff);
    assert_eq!(route_request("POST /other HTTP/1.1\r\n\r\ntoken=abc", tok), Route::Status);
}

#[test]
fn responses() {
    assert_eq!(decimal_bytes(0), b"0".to_vec());
    assert_eq!(decimal_bytes(1234), b"1234".to_vec());
    assert_eq!(forbidden_response(), b"HTTP/1.1 403 Forbidden\r\n\r\n".to_vec());
    assert_eq!(ok_response(b"{}", false), b"HTTP/1.1 200 OK\r\nContent-Length: 2\r\n\r\n{}".to_vec());
    assert_eq!(
        ok_response("{\"a\":\"\u{e9}\"}".as_bytes(), true),
        "HTTP/1.1 200 OK\r\nContent-Type: application/json\\r\\nContent-Length: 10\r\n\r\n{\"a\":\"\u{e9}\"}"
            .as_bytes()
            .to_vec()
    );
}
