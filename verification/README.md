# trust_sentinel

The decision logic of Trust Sentinel, an offline endpoint trust agent for
Windows, written in Verus and proved against its contracts.

- `src/text.rs`: `lines`, `split`, `trim`, `split_whitespace`, prefix, suffix and
  substring tests over character sequences, with the meaning Rust's `str` gives them.
- `src/state.rs`: the watched system state, parsed from the tools' output.
- `src/detect.rs`: the baseline comparison and the port-scan, phishing and
  ransomware detectors.
- `src/status.rs`: the trust verdict, the routing of the local endpoint's
  requests, the status it reports and the bytes of its HTTP answers.
- `src/crypto.rs`: the endpoint token (HMAC), the hosts-file digest and the
  at-rest encryption, over `hmac`, `sha2`, `ring` and `hex`.
- `src/guard.rs`: the automatic responses: repair, the home-network stealth
  rule and the set of blocked scanners.
- `src/tray.rs`: the tray icon, tooltip and alert rule.
- `app/`: the daemon and the tray programs: tool invocations, files, the TCP
  listener, threads, JSON and the tray window.
