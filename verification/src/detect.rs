//! Detectors: the comparison of a snapshot against the trusted baseline, the
//! port-scan detector, the phishing-domain check against the DNS cache, and
//! the ransomware canary test.

use vstd::prelude::*;
use crate::text::{
    chars_eq, chars_of, contains, copy_chars, has_prefix, index_of, lines, lines_exec, starts_with,
    string_of, trim, trim_exec, views, words, words_exec,
};
use crate::state::{skip_lines, StateView, SystemState};

verus! {

/// More established connections than this from one remote address is a port scan.
pub const SCAN_THRESHOLD: usize = 50;

/// This many canary files changed within the last half minute is a ransomware alert.
pub const RANSOM_THRESHOLD: usize = 5;

/// A canary file changed less than this many seconds ago counts as touched.
pub const CANARY_WINDOW_SECS: u64 = 30;

/// The lower-case form of a string, as `str::to_lowercase` gives it (Unicode
/// `Lowercase` mapping).
pub uninterp spec fn str_lowercase(s: Seq<char>) -> Seq<char>;

/// `str::to_lowercase`. Claims only that the result is `str_lowercase` of the
/// argument: the Unicode case mapping is not written out here.
#[verifier::external_body]
fn lowercase(s: &str) -> (r: String)
    ensures
        r@ == str_lowercase(s@),
{
    s.to_lowercase()
}

// ---------------------------------------------------------------------------
// Baseline comparison.
// ---------------------------------------------------------------------------

/// One finding when `cond` holds.
pub open spec fn change(cond: bool, kind: Seq<char>, msg: Seq<char>) -> Seq<(Seq<char>, Seq<char>)> {
    if cond {
        seq![(kind, msg)]
    } else {
        Seq::empty()
    }
}

/// The device looks offline: no Wi-Fi network and at most one DNS entry.
pub open spec fn offline(wifi_now: Seq<char>, dns_now_len: nat) -> bool {
    wifi_now == "Unknown"@ && dns_now_len <= 1
}

/// The findings of `b` against the baseline `a`, one per setting that
/// changed, in the order DNS, hosts, startup, ports, firewall, ARP, Wi-Fi; none
/// while the device looks offline, where changes are expected.
pub open spec fn diff_spec(a: StateView, b: StateView, wifi_now: Seq<char>, dns_now_len: nat) -> Seq<
    (Seq<char>, Seq<char>),
> {
    if offline(wifi_now, dns_now_len) {
        Seq::empty()
    } else {
        change(a.dns_servers != b.dns_servers, "dns_change"@, "DNS changed"@) + change(
            a.hosts_hash != b.hosts_hash,
            "hosts_change"@,
            "Hosts modified"@,
        ) + change(a.startup_entries != b.startup_entries, "startup_change"@, "Startup changed"@)
            + change(a.listening_ports != b.listening_ports, "port_change"@, "Ports changed"@)
            + change(
            a.firewall_profiles != b.firewall_profiles,
            "firewall_change"@,
            "Firewall changed"@,
        ) + change(a.arp_table != b.arp_table, "arp_change"@, "ARP changed"@) + change(
            a.wifi_ssid != b.wifi_ssid,
            "wifi_change"@,
            "WiFi: "@ + b.wifi_ssid,
        )
    }
}

/// A snapshot compared with itself yields no finding.
pub proof fn law_diff_same_is_empty(a: StateView, wifi_now: Seq<char>, dns_now_len: nat)
    ensures
        diff_spec(a, a, wifi_now, dns_now_len) == Seq::<(Seq<char>, Seq<char>)>::empty(),
{
    assert(diff_spec(a, a, wifi_now, dns_now_len) =~= Seq::<(Seq<char>, Seq<char>)>::empty());
}

/// Each setting that differs yields exactly its finding: the number of
/// findings is the number of differing settings (while online).
pub proof fn law_diff_counts_changes(a: StateView, b: StateView, wifi_now: Seq<char>, dns_now_len: nat)
    requires
        !offline(wifi_now, dns_now_len),
    ensures
        diff_spec(a, b, wifi_now, dns_now_len).len() == (if a.dns_servers != b.dns_servers {
            1int
        } else {
            0
        }) + (if a.hosts_hash != b.hosts_hash {
            1int
        } else {
            0
        }) + (if a.startup_entries != b.startup_entries {
            1int
        } else {
            0
        }) + (if a.listening_ports != b.listening_ports {
            1int
        } else {
            0
        }) + (if a.firewall_profiles != b.firewall_profiles {
            1int
        } else {
            0
        }) + (if a.arp_table != b.arp_table {
            1int
        } else {
            0
        }) + (if a.wifi_ssid != b.wifi_ssid {
            1int
        } else {
            0
        }),
{
}

/// Only a device without a Wi-Fi name can count as offline: while the Wi-Fi
/// name is known, there is one finding per setting that differs, whatever the
/// number of DNS servers.
pub proof fn law_diff_online_with_wifi(a: StateView, b: StateView, wifi_now: Seq<char>, dns_now_len: nat)
    ensures
        offline(wifi_now, dns_now_len) ==> wifi_now == "Unknown"@,
        wifi_now != "Unknown"@ ==> diff_spec(a, b, wifi_now, dns_now_len).len() == (if a.dns_servers
            != b.dns_servers {
            1int
        } else {
            0
        }) + (if a.hosts_hash != b.hosts_hash {
            1int
        } else {
            0
        }) + (if a.startup_entries != b.startup_entries {
            1int
        } else {
            0
        }) + (if a.listening_ports != b.listening_ports {
            1int
        } else {
            0
        }) + (if a.firewall_profiles != b.firewall_profiles {
            1int
        } else {
            0
        }) + (if a.arp_table != b.arp_table {
            1int
        } else {
            0
        }) + (if a.wifi_ssid != b.wifi_ssid {
            1int
        } else {
            0
        }),
        wifi_now != "Unknown"@ && a.hosts_hash != b.hosts_hash && a.dns_servers == b.dns_servers
            ==> diff_spec(a, b, wifi_now, dns_now_len)[0] == ("hosts_change"@, "Hosts modified"@),
{
}

/// Equality of two lists of strings.
pub fn strings_eq(a: &Vec<String>, b: &Vec<String>) -> (r: bool)
    ensures
        r == (a.deep_view() == b.deep_view()),
{
    if a.len() != b.len() {
        assert(a.deep_view().len() != b.deep_view().len());
        return false;
    }
    for i in 0..a.len()
        invariant
            a.len() == b.len(),
            forall|k: int| 0 <= k < i ==> a@[k]@ == b@[k]@,
    {
        if a[i] != b[i] {
            assert(a.deep_view()[i as int] != b.deep_view()[i as int]);
            return false;
        }
    }
    assert(a.deep_view() =~= b.deep_view());
    true
}

fn push_change(d: &mut Vec<(String, String)>, cond: bool, kind: &str, msg: String)
    ensures
        final(d).deep_view() == old(d).deep_view() + change(cond, kind@, msg@),
{
    if cond {
        let ghost d0 = d@;
        d.push((kind.to_owned(), msg));
        assert(d.deep_view() =~= old(d).deep_view() + change(cond, kind@, msg@)) by {
            assert forall|k: int| 0 <= k < d0.len() implies d@[k] == d0[k] by {}
        }
    } else {
        assert(d.deep_view() =~= old(d).deep_view() + change(cond, kind@, msg@));
    }
}

/// The settings of `b` that differ from the baseline `a`, as (kind, message)
/// pairs; none while the current Wi-Fi is "Unknown" and at most one DNS entry
/// is configured, since changes are then expected.
pub fn diff(a: &SystemState, b: &SystemState, wifi_now: &str, dns_now: &Vec<String>) -> (d: Vec<
    (String, String),
>)
    ensures
        d.deep_view() == diff_spec(a@, b@, wifi_now@, dns_now@.len()),
{
    let mut d: Vec<(String, String)> = Vec::new();
    let unknown = "Unknown";
    proof {
        reveal_strlit("Unknown");
    }
    let w = chars_of(wifi_now);
    let u = chars_of(unknown);
    if chars_eq(&w, &u) && dns_now.len() <= 1 {
        assert(d.deep_view() =~= Seq::<(Seq<char>, Seq<char>)>::empty());
        return d;
    }
    push_change(&mut d, !strings_eq(&a.dns_servers, &b.dns_servers), "dns_change", "DNS changed".to_owned());
    push_change(&mut d, a.hosts_hash != b.hosts_hash, "hosts_change", "Hosts modified".to_owned());
    push_change(
        &mut d,
        !strings_eq(&a.startup_entries, &b.startup_entries),
        "startup_change",
        "Startup changed".to_owned(),
    );
    push_change(
        &mut d,
        !strings_eq(&a.listening_ports, &b.listening_ports),
        "port_change",
        "Ports changed".to_owned(),
    );
    push_change(
        &mut d,
        !strings_eq(&a.firewall_profiles, &b.firewall_profiles),
        "firewall_change",
        "Firewall changed".to_owned(),
    );
    push_change(&mut d, !strings_eq(&a.arp_table, &b.arp_table), "arp_change", "ARP changed".to_owned());
    let mut m = chars_of("WiFi: ");
    let ws = chars_of(b.wifi_ssid.as_str());
    let ghost m0 = m@;
    for i in 0..ws.len()
        invariant
            m@ == m0 + ws@.take(i as int),
    {
        m.push(ws[i]);
        assert(m@ =~= m0 + ws@.take(i + 1));
    }
    assert(ws@.take(ws.len() as int) =~= ws@);
    push_change(&mut d, a.wifi_ssid != b.wifi_ssid, "wifi_change", string_of(&m));
    d
}

// ---------------------------------------------------------------------------
// Port scans.
// ---------------------------------------------------------------------------

/// The position of the last `c` in `s`, or -1.
pub open spec fn last_index(s: Seq<char>, c: char) -> int
    decreases s.len(),
{
    if s.len() == 0 {
        -1
    } else if s.last() == c {
        s.len() - 1
    } else {
        last_index(s.drop_last(), c)
    }
}

/// The host part of "host:port": what precedes the last ':' (`rsplitn(2, ':').nth(1)`).
pub open spec fn host_of(addr: Seq<char>) -> Option<Seq<char>> {
    let k = last_index(addr, ':');
    if k < 0 {
        None
    } else {
        Some(addr.take(k))
    }
}

/// Loopback, private and other local ranges that the detector ignores.
pub open spec fn is_local(ip: Seq<char>) -> bool {
    starts_with(ip, "127."@) || starts_with(ip, "192.168."@) || starts_with(ip, "10."@)
        || starts_with(ip, "23."@) || starts_with(ip, "172.16."@)
}

/// The remote host of a netstat row in state ESTABLISHED, unless it is local.
pub open spec fn established_host(l: Seq<char>) -> Option<Seq<char>> {
    let w = words(l);
    if w.len() >= 3 && w[3] == "ESTABLISHED"@ {
        match host_of(w[2]) {
            Some(ip) => if is_local(ip) {
                None
            } else {
                Some(ip)
            },
            None => None,
        }
    } else {
        None
    }
}

pub open spec fn established_hosts(ls: Seq<Seq<char>>) -> Seq<Seq<char>>
    decreases ls.len(),
{
    if ls.len() == 0 {
        Seq::empty()
    } else {
        let r = established_hosts(ls.drop_last());
        match established_host(ls.last()) {
            Some(ip) => r.push(ip),
            None => r,
        }
    }
}

/// The rows of netstat's output after its four header lines.
pub open spec fn netstat_rows(out: Seq<char>) -> Seq<Seq<char>> {
    skip_lines(lines(out), 4)
}

/// The remote hosts of the established connections, one entry per connection.
pub open spec fn scan_hosts(out: Seq<char>) -> Seq<Seq<char>> {
    established_hosts(netstat_rows(out))
}

/// The detector reads the fourth word of each row that has at least three:
/// a row of exactly three words is outside what it handles.
pub open spec fn netstat_readable(out: Seq<char>) -> bool {
    forall|i: int| 0 <= i < netstat_rows(out).len() ==> words(#[trigger] netstat_rows(out)[i]).len() != 3
}

/// How often `x` occurs in `s`.
pub open spec fn count_of(s: Seq<Seq<char>>, x: Seq<char>) -> nat
    decreases s.len(),
{
    if s.len() == 0 {
        0
    } else {
        count_of(s.drop_last(), x) + if s.last() == x {
            1nat
        } else {
            0nat
        }
    }
}

/// From position `from` on, the first host that holds more than
/// `SCAN_THRESHOLD` connections, or the empty string.
pub open spec fn first_scanner(hosts: Seq<Seq<char>>, from: int) -> Seq<char>
    decreases hosts.len() - from,
{
    if from < 0 || from >= hosts.len() {
        Seq::empty()
    } else if count_of(hosts, hosts[from]) > SCAN_THRESHOLD {
        hosts[from]
    } else {
        first_scanner(hosts, from + 1)
    }
}

/// The scanning host that the detector reports: the first remote host, in the
/// order of netstat's rows, with more than `SCAN_THRESHOLD` established
/// connections; empty where there is none.
pub open spec fn port_scan_spec(out: Seq<char>) -> Seq<char> {
    first_scanner(scan_hosts(out), 0)
}

/// The reported host, if any, has more than `SCAN_THRESHOLD` connections, and
/// where some host has, one is reported.
pub proof fn law_scan_report_exceeds_threshold(hosts: Seq<Seq<char>>, from: int)
    requires
        0 <= from <= hosts.len(),
    ensures
        (exists|i: int| from <= i < hosts.len() && count_of(hosts, #[trigger] hosts[i]) > SCAN_THRESHOLD)
            ==> count_of(hosts, first_scanner(hosts, from)) > SCAN_THRESHOLD && hosts.contains(
            first_scanner(hosts, from),
        ),
        (forall|i: int| from <= i < hosts.len() ==> count_of(hosts, #[trigger] hosts[i]) <= SCAN_THRESHOLD)
            ==> first_scanner(hosts, from) == Seq::<char>::empty(),
    decreases hosts.len() - from,
{
    if from < hosts.len() {
        law_scan_report_exceeds_threshold(hosts, from + 1);
        if count_of(hosts, hosts[from]) > SCAN_THRESHOLD {
            assert(hosts.contains(hosts[from]));
        } else {
            assert forall|i: int| from + 1 <= i < hosts.len() && count_of(hosts, #[trigger] hosts[i]) > SCAN_THRESHOLD
                implies true by {}
            if exists|i: int| from <= i < hosts.len() && count_of(hosts, #[trigger] hosts[i]) > SCAN_THRESHOLD {
                let i = choose|i: int| from <= i < hosts.len() && count_of(hosts, #[trigger] hosts[i]) > SCAN_THRESHOLD;
                assert(i != from);
            }
        }
    }
}

fn is_local_exec(ip: &Vec<char>) -> (r: bool)
    ensures
        r == is_local(ip@),
{
    has_prefix(ip, &chars_of("127.")) || has_prefix(ip, &chars_of("192.168.")) || has_prefix(
        ip,
        &chars_of("10."),
    ) || has_prefix(ip, &chars_of("23.")) || has_prefix(ip, &chars_of("172.16."))
}

#[verifier::rlimit(30)]
fn host_of_exec(addr: &Vec<char>) -> (r: Option<Vec<char>>)
    ensures
        match r {
            Some(h) => host_of(addr@) == Some(h@),
            None => host_of(addr@) is None,
        },
{
    let mut k: usize = addr.len();
    assert(addr@.take(addr.len() as int) =~= addr@);
    while k > 0 && addr[k - 1] != ':'
        invariant
            k <= addr.len(),
            last_index(addr@, ':') == last_index(addr@.take(k as int), ':'),
        decreases k,
    {
        assert(addr@.take(k as int).drop_last() =~= addr@.take(k - 1));
        k = k - 1;
    }
    if k == 0 {
        assert(addr@.take(0).len() == 0);
        return None;
    }
    assert(addr@.take(k as int).last() == ':');
    let end = k - 1;
    let mut h: Vec<char> = Vec::new();
    for i in 0..end
        invariant
            end < k <= addr.len(),
            h@ == addr@.take(i as int),
    {
        h.push(addr[i]);
        assert(h@ =~= addr@.take(i + 1));
    }
    Some(h)
}

/// Netstat's output is one that the detector handles: no row after the
/// headers has exactly three words.
pub fn netstat_is_readable(output: &str) -> (r: bool)
    ensures
        r == netstat_readable(output@),
{
    let text = chars_of(output);
    let ls = lines_exec(&text);
    if ls.len() <= 4 {
        assert(netstat_rows(output@).len() == 0);
        return true;
    }
    for i in 4..ls.len()
        invariant
            ls.len() > 4,
            views(ls@) == lines(output@),
            forall|k: int| 0 <= k < i - 4 ==> words(#[trigger] netstat_rows(output@)[k]).len() != 3,
    {
        assert(netstat_rows(output@)[i - 4] == views(ls@)[i as int]);
        let w = words_exec(&ls[i]);
        if w.len() == 3 {
            return false;
        }
    }
    true
}

fn count_exec(s: &Vec<Vec<char>>, x: &Vec<char>) -> (n: usize)
    ensures
        n == count_of(views(s@), x@),
{
    let mut n: usize = 0;
    for i in 0..s.len()
        invariant
            n == count_of(views(s@).take(i as int), x@),
            n <= i,
    {
        assert(views(s@).take(i + 1).drop_last() =~= views(s@).take(i as int));
        if chars_eq(&s[i], x) {
            n = n + 1;
        }
    }
    assert(views(s@).take(s.len() as int) =~= views(s@));
    n
}

/// The remote host that is scanning this device: the first, in netstat's
/// order, with more than `SCAN_THRESHOLD` established connections from outside
/// the local ranges; empty where there is none.
pub fn detect_port_scan(netstat_output: &str) -> (r: String)
    requires
        netstat_readable(netstat_output@),
    ensures
        r@ == port_scan_spec(netstat_output@),
{
    let text = chars_of(netstat_output);
    let ls = lines_exec(&text);
    let established = chars_of("ESTABLISHED");
    let mut hosts: Vec<Vec<char>> = Vec::new();
    let ghost rows = netstat_rows(netstat_output@);
    if ls.len() > 4 {
        for i in 4..ls.len()
            invariant
                ls.len() > 4,
                views(ls@) == lines(netstat_output@),
                rows == views(ls@).skip(4),
                rows == netstat_rows(netstat_output@),
                netstat_readable(netstat_output@),
                established@ == "ESTABLISHED"@,
                views(hosts@) == established_hosts(rows.take(i - 4)),
        {
            assert(rows.take(i - 4 + 1).drop_last() =~= rows.take(i - 4));
            assert(rows[i - 4] == views(ls@)[i as int]);
            let w = words_exec(&ls[i]);
            assert(words(rows[i - 4]).len() != 3);
            if w.len() >= 3 && chars_eq(&w[3], &established) {
                match host_of_exec(&w[2]) {
                    Some(ip) => {
                        if !is_local_exec(&ip) {
                            hosts.push(ip);
                        }
                    },
                    None => {},
                }
            }
            assert(views(hosts@) =~= established_hosts(rows.take(i - 4 + 1)));
        }
        assert(rows.take(ls.len() - 4) =~= rows);
    } else {
        assert(views(hosts@) =~= established_hosts(rows));
    }
    let ghost hv = views(hosts@);
    assert(hv == scan_hosts(netstat_output@));
    for i in 0..hosts.len()
        invariant
            hv == views(hosts@),
            hv == scan_hosts(netstat_output@),
            first_scanner(hv, 0) == first_scanner(hv, i as int),
    {
        assert(hv[i as int] == hosts@[i as int]@);
        if exceeds_scan_threshold(count_exec(&hosts, &hosts[i])) {
            return string_of(&hosts[i]);
        }
    }
    let none: Vec<char> = Vec::new();
    assert(none@ =~= Seq::<char>::empty());
    string_of(&none)
}

/// Whether a connection count is above the port-scan threshold.
pub fn exceeds_scan_threshold(count: usize) -> (r: bool)
    ensures
        r == (count > SCAN_THRESHOLD),
{
    count > SCAN_THRESHOLD
}

// ---------------------------------------------------------------------------
// Phishing.
// ---------------------------------------------------------------------------

/// The domain that a hosts-format blocklist line blocks: a line (trimmed) that
/// starts with "0.0.0.0" or "127.0.0.1" and has a second word, lower-cased.
pub open spec fn blocked_domain(l: Seq<char>) -> Option<Seq<char>> {
    let t = trim(l);
    let w = words(t);
    if (starts_with(t, "0.0.0.0"@) || starts_with(t, "127.0.0.1"@)) && w.len() >= 2 {
        Some(str_lowercase(w[1]))
    } else {
        None
    }
}

pub open spec fn blocked_domains(ls: Seq<Seq<char>>) -> Seq<Seq<char>>
    decreases ls.len(),
{
    if ls.len() == 0 {
        Seq::empty()
    } else {
        let r = blocked_domains(ls.drop_last());
        match blocked_domain(ls.last()) {
            Some(d) => r.push(d),
            None => r,
        }
    }
}

/// The domains of a hosts-format blocklist, in file order.
pub fn parse_blocklist(content: &str) -> (r: Vec<String>)
    ensures
        r.deep_view() == blocked_domains(lines(content@)),
{
    let text = chars_of(content);
    let ls = lines_exec(&text);
    let zero = chars_of("0.0.0.0");
    let lo = chars_of("127.0.0.1");
    let mut r: Vec<String> = Vec::new();
    for i in 0..ls.len()
        invariant
            zero@ == "0.0.0.0"@,
            lo@ == "127.0.0.1"@,
            r.deep_view() == blocked_domains(views(ls@).take(i as int)),
    {
        assert(views(ls@).take(i + 1).drop_last() =~= views(ls@).take(i as int));
        let t = trim_exec(&ls[i]);
        let w = words_exec(&t);
        let ghost r0 = r.deep_view();
        if (has_prefix(&t, &zero) || has_prefix(&t, &lo)) && w.len() >= 2 {
            let d = lowercase(string_of(&w[1]).as_str());
            r.push(d);
            assert(r.deep_view() =~= r0.push(d@));
        }
        assert(r.deep_view() =~= blocked_domains(views(ls@).take(i + 1)));
    }
    assert(views(ls@).take(ls.len() as int) =~= views(ls@));
    r
}

/// The lower-cased trimmed cache entries from position `from` on: the first
/// that is non-empty and blocked, or the empty string.
pub open spec fn first_blocked(entries: Seq<Seq<char>>, blocklist: Seq<Seq<char>>, from: int) -> Seq<
    char,
>
    decreases entries.len() - from,
{
    if from < 0 || from >= entries.len() {
        Seq::empty()
    } else {
        let e = str_lowercase(trim(entries[from]));
        if e.len() > 0 && blocklist.contains(e) {
            e
        } else {
            first_blocked(entries, blocklist, from + 1)
        }
    }
}

/// A reported phishing domain is never empty and is on the blocklist.
pub proof fn law_phishing_hit_is_listed(entries: Seq<Seq<char>>, blocklist: Seq<Seq<char>>, from: int)
    ensures
        first_blocked(entries, blocklist, from).len() > 0 ==> blocklist.contains(
            first_blocked(entries, blocklist, from),
        ),
    decreases entries.len() - from,
{
    if 0 <= from < entries.len() {
        law_phishing_hit_is_listed(entries, blocklist, from + 1);
    }
}

/// The first domain in the DNS cache listing that the blocklist holds,
/// trimmed and lower-cased; empty where there is none.
pub fn check_phishing(blocklist: &Vec<String>, cache_output: &str) -> (r: String)
    ensures
        r@ == first_blocked(lines(cache_output@), blocklist.deep_view(), 0),
{
    let text = chars_of(cache_output);
    let ls = lines_exec(&text);
    let mut bl: Vec<Vec<char>> = Vec::new();
    for i in 0..blocklist.len()
        invariant
            bl@.len() == i,
            forall|k: int| 0 <= k < i ==> (#[trigger] bl@[k])@ == blocklist@[k]@,
    {
        bl.push(chars_of(blocklist[i].as_str()));
    }
    assert(views(bl@) =~= blocklist.deep_view());
    let ghost lv = views(ls@);
    for i in 0..ls.len()
        invariant
            lv == views(ls@),
            lv == lines(cache_output@),
            views(bl@) == blocklist.deep_view(),
            first_blocked(lv, views(bl@), 0) == first_blocked(lv, views(bl@), i as int),
    {
        let t = trim_exec(&ls[i]);
        let e = lowercase(string_of(&t).as_str());
        let ev = chars_of(e.as_str());
        if ev.len() > 0 && index_of(&bl, &ev).is_some() {
            return e;
        }
    }
    let none: Vec<char> = Vec::new();
    assert(none@ =~= Seq::<char>::empty());
    string_of(&none)
}

// ---------------------------------------------------------------------------
// Ransomware canaries.
// ---------------------------------------------------------------------------

/// How many canary files changed less than `CANARY_WINDOW_SECS` ago.
pub open spec fn touched_canaries(ages: Seq<Option<u64>>) -> nat
    decreases ages.len(),
{
    if ages.len() == 0 {
        0
    } else {
        touched_canaries(ages.drop_last()) + match ages.last() {
            Some(a) => if a < CANARY_WINDOW_SECS {
                1nat
            } else {
                0nat
            },
            None => 0nat,
        }
    }
}

/// Ransomware alert: at least `RANSOM_THRESHOLD` canary files were modified
/// within the last `CANARY_WINDOW_SECS` seconds. Each entry is a canary's age
/// in seconds, `None` where it could not be read.
pub fn check_ransomware(ages: &Vec<Option<u64>>) -> (r: bool)
    ensures
        r == (touched_canaries(ages@) >= RANSOM_THRESHOLD),
{
    let mut n: usize = 0;
    for i in 0..ages.len()
        invariant
            n == touched_canaries(ages@.take(i as int)),
            n <= i,
    {
        assert(ages@.take(i + 1).drop_last() =~= ages@.take(i as int));
        match ages[i] {
            Some(a) => {
                if a < CANARY_WINDOW_SECS {
                    n = n + 1;
                }
            },
            None => {},
        }
    }
    assert(ages@.take(ages.len() as int) =~= ages@);
    n >= RANSOM_THRESHOLD
}

} // verus!
