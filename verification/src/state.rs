//! The system state that the agent watches, read from what the system tools
//! print: DNS servers, the hosts-file fingerprint, startup entries, listening
//! ports, firewall profiles, the ARP table and the Wi-Fi network.

use vstd::prelude::*;
use crate::text::{
    is_ws, law_trim_keeps_the_core,
    chars_eq, chars_of, contains, copy_chars, dedup, dedup_exec, ends_with, has_substring,
    has_suffix, lines, lines_exec, nonempty, nonempty_exec, split_by, split_by_exec, string_of,
    strings_of, trim, trim_exec, views, words, words_exec,
};
use crate::crypto::{get_hosts_hash, hosts_hash_spec, MAX_DIGEST_INPUT};

verus! {

/// The port of the agent's own status endpoint.
pub const HTTP_PORT: u16 = 12789;

/// One snapshot of the watched system settings.
pub struct SystemState {
    pub dns_servers: Vec<String>,
    pub hosts_hash: String,
    pub startup_entries: Vec<String>,
    pub listening_ports: Vec<String>,
    pub firewall_profiles: Vec<String>,
    pub arp_table: Vec<String>,
    pub wifi_ssid: String,
}

/// The abstract value of a snapshot: each list and name as character sequences.
pub struct StateView {
    pub dns_servers: Seq<Seq<char>>,
    pub hosts_hash: Seq<char>,
    pub startup_entries: Seq<Seq<char>>,
    pub listening_ports: Seq<Seq<char>>,
    pub firewall_profiles: Seq<Seq<char>>,
    pub arp_table: Seq<Seq<char>>,
    pub wifi_ssid: Seq<char>,
}

impl View for SystemState {
    type V = StateView;

    open spec fn view(&self) -> StateView {
        StateView {
            dns_servers: self.dns_servers.deep_view(),
            hosts_hash: self.hosts_hash@,
            startup_entries: self.startup_entries.deep_view(),
            listening_ports: self.listening_ports.deep_view(),
            firewall_profiles: self.firewall_profiles.deep_view(),
            arp_table: self.arp_table.deep_view(),
            wifi_ssid: self.wifi_ssid@,
        }
    }
}

/// What the system tools printed, and what was read from disk, for one snapshot.
pub struct Readings {
    /// `Get-DnsClientServerAddress` output: one comma-separated list per adapter.
    pub dns_output: String,
    /// The hosts file's bytes, `None` where it could not be read as text.
    pub hosts_content: Option<Vec<u8>>,
    /// The file names in the user's Startup folder.
    pub startup_files: Vec<String>,
    /// The value names under the `Run` registry key, one per line.
    pub run_key_output: String,
    /// `netstat -ano -p TCP` output.
    pub netstat_output: String,
    /// `Get-NetFirewallProfile` output: one `Name:ON|OFF` per line.
    pub firewall_output: String,
    /// `arp -a` output.
    pub arp_output: String,
    /// The name of the Wi-Fi connection profile.
    pub wifi_output: String,
}

// ---------------------------------------------------------------------------
// Specifications.
// ---------------------------------------------------------------------------

pub open spec fn trim_all(ps: Seq<Seq<char>>) -> Seq<Seq<char>> {
    Seq::new(ps.len(), |i: int| trim(ps[i]))
}

/// `v`, or the one placeholder `d` where `v` is empty.
pub open spec fn or_default(v: Seq<Seq<char>>, d: Seq<char>) -> Seq<Seq<char>> {
    if v.len() == 0 {
        seq![d]
    } else {
        v
    }
}

/// The trimmed comma-separated items of each line, in order.
pub open spec fn comma_items(ls: Seq<Seq<char>>) -> Seq<Seq<char>>
    decreases ls.len(),
{
    if ls.len() == 0 {
        Seq::empty()
    } else {
        comma_items(ls.drop_last()) + trim_all(split_by(ls.last(), Some(',')))
    }
}

/// The DNS servers: every non-empty address once, in the order first seen,
/// or "Unknown".
pub open spec fn dns_spec(out: Seq<char>) -> Seq<Seq<char>> {
    or_default(dedup(nonempty(comma_items(lines(out)))), "Unknown"@)
}

/// The startup entries: the Startup folder's files, then the non-empty `Run`
/// value names, or "None".
pub open spec fn startup_spec(files: Seq<Seq<char>>, out: Seq<char>) -> Seq<Seq<char>> {
    or_default(files + nonempty(trim_all(lines(out))), "None"@)
}

/// The firewall profiles: the non-empty trimmed lines, or "Unknown".
pub open spec fn firewall_spec(out: Seq<char>) -> Seq<Seq<char>> {
    or_default(nonempty(trim_all(lines(out))), "Unknown"@)
}

/// The trimmed lines that mention "dynamic" or "static".
pub open spec fn arp_rows(ls: Seq<Seq<char>>) -> Seq<Seq<char>>
    decreases ls.len(),
{
    if ls.len() == 0 {
        Seq::empty()
    } else {
        let r = arp_rows(ls.drop_last());
        if contains(ls.last(), "dynamic"@) || contains(ls.last(), "static"@) {
            r.push(ls.last())
        } else {
            r
        }
    }
}

/// The ARP entries, or "None".
pub open spec fn arp_spec(out: Seq<char>) -> Seq<Seq<char>> {
    or_default(arp_rows(trim_all(lines(out))), "None"@)
}

/// The Wi-Fi network's name, or "Unknown".
pub open spec fn wifi_spec(out: Seq<char>) -> Seq<char> {
    if trim(out).len() > 0 {
        trim(out)
    } else {
        "Unknown"@
    }
}

/// The lines after the first `n` (`Iterator::skip`).
pub open spec fn skip_lines(ls: Seq<Seq<char>>, n: int) -> Seq<Seq<char>> {
    if ls.len() <= n {
        Seq::empty()
    } else {
        ls.skip(n)
    }
}

/// The local address of a `netstat` row in state LISTENING, unless it is the
/// unspecified "0.0.0.0:0" or the agent's own port.
pub open spec fn listening_addr(l: Seq<char>) -> Option<Seq<char>> {
    let w = words(l);
    if w.len() >= 4 && w[3] == "LISTENING"@ && w[1] != "0.0.0.0:0"@ && !ends_with(
        w[1],
        ":12789"@,
    ) {
        Some(w[1])
    } else {
        None
    }
}

pub open spec fn listening_addrs(ls: Seq<Seq<char>>) -> Seq<Seq<char>>
    decreases ls.len(),
{
    if ls.len() == 0 {
        Seq::empty()
    } else {
        let r = listening_addrs(ls.drop_last());
        match listening_addr(ls.last()) {
            Some(a) => r.push(a),
            None => r,
        }
    }
}

/// The candidates for the listening ports: netstat's rows after its four
/// header lines.
pub open spec fn port_candidates(out: Seq<char>) -> Seq<Seq<char>> {
    listening_addrs(skip_lines(lines(out), 4))
}

/// `a` comes before `b` in the order of `String` (byte-wise, which is the
/// order of the code points).
pub open spec fn lex_lt(a: Seq<char>, b: Seq<char>) -> bool
    decreases a.len(),
{
    if a.len() == 0 {
        b.len() > 0
    } else if b.len() == 0 {
        false
    } else if a[0] != b[0] {
        (a[0] as int) < (b[0] as int)
    } else {
        lex_lt(a.drop_first(), b.drop_first())
    }
}

/// Each item strictly before the next: sorted and without repeats.
pub open spec fn strictly_sorted(s: Seq<Seq<char>>) -> bool {
    forall|i: int, j: int| 0 <= i < j < s.len() ==> lex_lt(#[trigger] s[i], #[trigger] s[j])
}

/// `r` holds the same items as `c`, sorted, each once.
pub open spec fn sorted_set_of(r: Seq<Seq<char>>, c: Seq<Seq<char>>) -> bool {
    &&& strictly_sorted(r)
    &&& forall|x: Seq<char>| r.contains(x) <==> c.contains(x)
}

/// `v` is the snapshot that the readings `r` give: each setting is what its
/// parser makes of its reading.
pub open spec fn snapshot_of(v: StateView, r: Readings) -> bool {
    &&& v.dns_servers == dns_spec(r.dns_output@)
    &&& v.hosts_hash == hosts_hash_spec(
        match r.hosts_content {
            Some(b) => Some(b@),
            None => None,
        },
    )
    &&& v.startup_entries == startup_spec(r.startup_files.deep_view(), r.run_key_output@)
    &&& sorted_set_of(v.listening_ports, port_candidates(r.netstat_output@))
    &&& v.firewall_profiles == firewall_spec(r.firewall_output@)
    &&& v.arp_table == arp_spec(r.arp_output@)
    &&& v.wifi_ssid == wifi_spec(r.wifi_output@)
}

// ---------------------------------------------------------------------------
// Order lemmas.
// ---------------------------------------------------------------------------

pub proof fn lemma_lex_irreflexive(a: Seq<char>)
    ensures
        !lex_lt(a, a),
    decreases a.len(),
{
    if a.len() > 0 {
        lemma_lex_irreflexive(a.drop_first());
    }
}

pub proof fn lemma_lex_asymmetric(a: Seq<char>, b: Seq<char>)
    ensures
        !(lex_lt(a, b) && lex_lt(b, a)),
    decreases a.len(),
{
    if a.len() > 0 && b.len() > 0 && a[0] == b[0] {
        lemma_lex_asymmetric(a.drop_first(), b.drop_first());
    }
}

pub proof fn lemma_lex_transitive(a: Seq<char>, b: Seq<char>, c: Seq<char>)
    requires
        lex_lt(a, b),
        lex_lt(b, c),
    ensures
        lex_lt(a, c),
    decreases a.len(),
{
    if a.len() > 0 && b.len() > 0 && c.len() > 0 && a[0] == b[0] && b[0] == c[0] {
        lemma_lex_transitive(a.drop_first(), b.drop_first(), c.drop_first());
    }
}

pub proof fn lemma_lex_total(a: Seq<char>, b: Seq<char>)
    ensures
        a == b || lex_lt(a, b) || lex_lt(b, a),
    decreases a.len(),
{
    if a.len() > 0 && b.len() > 0 && a[0] == b[0] {
        lemma_lex_total(a.drop_first(), b.drop_first());
        if a.drop_first() == b.drop_first() {
            assert(a =~= seq![a[0]] + a.drop_first());
            assert(b =~= seq![b[0]] + b.drop_first());
        }
    } else if a.len() == 0 && b.len() == 0 {
        assert(a =~= b);
    } else if a.len() > 0 && b.len() > 0 {
        assert((a[0] as int) != (b[0] as int));
    }
}

/// Two sorted sequences without repeats that hold the same items are equal:
/// the listening ports are determined by the rows they come from.
pub proof fn lemma_sorted_set_unique(r1: Seq<Seq<char>>, r2: Seq<Seq<char>>)
    requires
        strictly_sorted(r1),
        strictly_sorted(r2),
        forall|x: Seq<char>| r1.contains(x) <==> r2.contains(x),
    ensures
        r1 == r2,
    decreases r1.len(),
{
    if r1.len() == 0 {
        if r2.len() > 0 {
            assert(r2.contains(r2[0]));
        }
        assert(r1 =~= r2);
    } else if r2.len() == 0 {
        assert(r1.contains(r1[0]));
    } else {
        let a = r1.last();
        let b = r2.last();
        assert(r1.contains(a));
        assert(r2.contains(b));
        let ia = choose|i: int| 0 <= i < r2.len() && r2[i] == a;
        let ib = choose|i: int| 0 <= i < r1.len() && r1[i] == b;
        if a != b {
            lemma_lex_total(a, b);
            if lex_lt(a, b) {
                if ib < r1.len() - 1 {
                    lemma_lex_asymmetric(r1[ib], a);
                } else {
                    lemma_lex_irreflexive(a);
                }
            } else {
                if ia < r2.len() - 1 {
                    lemma_lex_asymmetric(r2[ia], b);
                } else {
                    lemma_lex_irreflexive(b);
                }
            }
        }
        assert(a == b);
        let s1 = r1.drop_last();
        let s2 = r2.drop_last();
        assert forall|x: Seq<char>| s1.contains(x) <==> s2.contains(x) by {
            if s1.contains(x) {
                let i = choose|i: int| 0 <= i < s1.len() && s1[i] == x;
                assert(r1[i] == x);
                assert(lex_lt(x, a));
                lemma_lex_irreflexive(a);
                assert(r2.contains(x));
                let j = choose|j: int| 0 <= j < r2.len() && r2[j] == x;
                assert(j != r2.len() - 1);
                assert(s2[j] == x);
            }
            if s2.contains(x) {
                let i = choose|i: int| 0 <= i < s2.len() && s2[i] == x;
                assert(r2[i] == x);
                assert(lex_lt(x, b));
                lemma_lex_irreflexive(b);
                assert(r1.contains(x));
                let j = choose|j: int| 0 <= j < r1.len() && r1[j] == x;
                assert(j != r1.len() - 1);
                assert(s1[j] == x);
            }
        }
        lemma_sorted_set_unique(s1, s2);
        assert(r1 =~= s1.push(a));
        assert(r2 =~= s2.push(b));
    }
}

/// No item twice.
pub open spec fn no_repeats(s: Seq<Seq<char>>) -> bool {
    forall|i: int, j: int| 0 <= i < j < s.len() ==> s[i] != s[j]
}

pub proof fn lemma_dedup_no_repeats(s: Seq<Seq<char>>)
    ensures
        no_repeats(dedup(s)),
        forall|x: Seq<char>| dedup(s).contains(x) <==> s.contains(x),
    decreases s.len(),
{
    if s.len() > 0 {
        lemma_dedup_no_repeats(s.drop_last());
        let r = dedup(s.drop_last());
        let d = dedup(s);
        assert forall|x: Seq<char>| d.contains(x) <==> s.contains(x) by {
            assert(r.contains(x) <==> s.drop_last().contains(x));
            if r.contains(x) {
                let j = choose|j: int| 0 <= j < r.len() && r[j] == x;
                assert(d[j] == x);
            }
            if s.contains(x) {
                let k = choose|k: int| 0 <= k < s.len() && s[k] == x;
                if k < s.len() - 1 {
                    assert(s.drop_last()[k] == x);
                } else if !r.contains(x) {
                    assert(d[r.len() as int] == x);
                }
            }
            if d.contains(x) {
                let k = choose|k: int| 0 <= k < d.len() && d[k] == x;
                if k < r.len() {
                    assert(r[k] == x);
                    let m = choose|m: int| 0 <= m < s.drop_last().len() && s.drop_last()[m] == x;
                    assert(s[m] == x);
                } else {
                    assert(s[s.len() - 1] == x);
                }
            }
        }
    }
}

pub proof fn lemma_nonempty_items(ps: Seq<Seq<char>>)
    ensures
        forall|i: int| 0 <= i < nonempty(ps).len() ==> #[trigger] nonempty(ps)[i].len() > 0,
    decreases ps.len(),
{
    if ps.len() > 0 {
        lemma_nonempty_items(ps.drop_last());
        let r = nonempty(ps.drop_last());
        assert forall|i: int| 0 <= i < nonempty(ps).len() implies #[trigger] nonempty(ps)[i].len() > 0 by {
            if i < r.len() {
                assert(nonempty(ps)[i] == r[i]);
            }
        }
    }
}

/// The DNS list is never empty, holds no server twice, and holds no empty entry.
pub proof fn law_dns_list_well_formed(out: Seq<char>)
    ensures
        dns_spec(out).len() >= 1,
        no_repeats(dns_spec(out)),
        forall|i: int| 0 <= i < dns_spec(out).len() ==> #[trigger] dns_spec(out)[i].len() > 0,
{
    reveal_strlit("Unknown");
    let n = nonempty(comma_items(lines(out)));
    lemma_dedup_no_repeats(n);
    lemma_nonempty_items(comma_items(lines(out)));
    assert forall|i: int| 0 <= i < dns_spec(out).len() implies #[trigger] dns_spec(out)[i].len() > 0 by {
        if dedup(n).len() > 0 {
            let x = dedup(n)[i];
            assert(dedup(n).contains(x));
            assert(n.contains(x));
            let k = choose|k: int| 0 <= k < n.len() && n[k] == x;
            assert(n[k].len() > 0);
        }
    }
}

/// Each watched list has at least one entry: a placeholder stands for none.
pub proof fn law_lists_never_empty(files: Seq<Seq<char>>, out: Seq<char>)
    ensures
        startup_spec(files, out).len() >= 1,
        firewall_spec(out).len() >= 1,
        arp_spec(out).len() >= 1,
        wifi_spec(out).len() >= 1,
{
    reveal_strlit("Unknown");
}

/// Two snapshots taken from the same readings are the same snapshot: when
/// nothing that the agent reads changed, nothing in its state changed.
pub proof fn law_snapshot_determined(v1: StateView, v2: StateView, r: Readings)
    requires
        snapshot_of(v1, r),
        snapshot_of(v2, r),
    ensures
        v1 == v2,
{
    let c = port_candidates(r.netstat_output@);
    assert forall|x: Seq<char>| v1.listening_ports.contains(x) <==> v2.listening_ports.contains(x) by {
        assert(v1.listening_ports.contains(x) <==> c.contains(x));
        assert(v2.listening_ports.contains(x) <==> c.contains(x));
    }
    lemma_sorted_set_unique(v1.listening_ports, v2.listening_ports);
}

/// The Wi-Fi name is the whole printed name without the whitespace around
/// it: a run of the output that starts and ends with a non-whitespace
/// character, with only whitespace outside it (inner spaces kept); "Unknown"
/// where the output is blank.
pub proof fn law_wifi_is_the_whole_trimmed_name(out: Seq<char>)
    ensures
        (forall|m: int| 0 <= m < out.len() ==> is_ws(#[trigger] out[m])) ==> wifi_spec(out)
            == "Unknown"@,
        (exists|m: int| 0 <= m < out.len() && !is_ws(#[trigger] out[m])) ==> exists|i: int, j: int|
            {
                &&& 0 <= i < j <= out.len()
                &&& wifi_spec(out) == out.subrange(i, j)
                &&& !is_ws(out[i])
                &&& !is_ws(out[j - 1])
                &&& forall|m: int| 0 <= m < i ==> is_ws(#[trigger] out[m])
                &&& forall|m: int| j <= m < out.len() ==> is_ws(#[trigger] out[m])
            },
{
    law_trim_keeps_the_core(out);
    if exists|m: int| 0 <= m < out.len() && !is_ws(#[trigger] out[m]) {
        let (i, j) = choose|i: int, j: int|
            {
                &&& 0 <= i < j <= out.len()
                &&& trim(out) == out.subrange(i, j)
                &&& !is_ws(out[i])
                &&& !is_ws(out[j - 1])
                &&& forall|m: int| 0 <= m < i ==> is_ws(#[trigger] out[m])
                &&& forall|m: int| j <= m < out.len() ==> is_ws(#[trigger] out[m])
            };
        assert(trim(out).len() == j - i);
        assert(wifi_spec(out) == out.subrange(i, j));
    }
}

// ---------------------------------------------------------------------------
// Executable parsers.
// ---------------------------------------------------------------------------

fn trim_all_exec(ps: &Vec<Vec<char>>) -> (r: Vec<Vec<char>>)
    ensures
        views(r@) == trim_all(views(ps@)),
{
    let mut r: Vec<Vec<char>> = Vec::new();
    for i in 0..ps.len()
        invariant
            r@.len() == i,
            forall|k: int| 0 <= k < i ==> (#[trigger] r@[k])@ == trim(ps@[k]@),
    {
        r.push(trim_exec(&ps[i]));
    }
    assert(views(r@) =~= trim_all(views(ps@)));
    r
}

fn or_default_exec(v: Vec<Vec<char>>, d: &str) -> (r: Vec<Vec<char>>)
    ensures
        views(r@) == or_default(views(v@), d@),
{
    if v.len() == 0 {
        let mut r: Vec<Vec<char>> = Vec::new();
        r.push(chars_of(d));
        assert(views(r@) =~= seq![d@]);
        r
    } else {
        v
    }
}

fn append_all(acc: &mut Vec<Vec<char>>, more: Vec<Vec<char>>)
    ensures
        views(final(acc)@) == views(old(acc)@) + views(more@),
{
    let ghost a0 = acc@;
    for i in 0..more.len()
        invariant
            acc@.len() == a0.len() + i,
            forall|k: int| 0 <= k < a0.len() ==> (#[trigger] acc@[k])@ == a0[k]@,
            forall|k: int| 0 <= k < i ==> (#[trigger] acc@[a0.len() + k])@ == more@[k]@,
    {
        acc.push(copy_chars(&more[i]));
    }
    assert(views(acc@) =~= views(a0) + views(more@)) by {
        assert forall|k: int| 0 <= k < acc@.len() implies views(acc@)[k] == (views(a0) + views(
            more@,
        ))[k] by {
            if k >= a0.len() {
                assert(acc@[a0.len() + (k - a0.len())] == acc@[k]);
            }
        }
    }
}

/// The DNS servers of the IPv4 adapters that have any, each once, in the order
/// first printed; "Unknown" where there are none.
pub fn get_dns(output: &str) -> (r: Vec<String>)
    ensures
        r.deep_view() == dns_spec(output@),
{
    let text = chars_of(output);
    let ls = lines_exec(&text);
    let mut items: Vec<Vec<char>> = Vec::new();
    for i in 0..ls.len()
        invariant
            views(items@) == comma_items(views(ls@).take(i as int)),
    {
        assert(views(ls@).take(i + 1).drop_last() =~= views(ls@).take(i as int));
        let parts = split_by_exec(&ls[i], Some(','));
        let trimmed = trim_all_exec(&parts);
        append_all(&mut items, trimmed);
    }
    assert(views(ls@).take(ls.len() as int) =~= views(ls@));
    let d = dedup_exec(&nonempty_exec(items));
    strings_of(&or_default_exec(d, "Unknown"))
}

/// The startup entries: the Startup folder's file names, then the non-empty
/// value names under the `Run` key; "None" where there are none.
pub fn get_startup(folder_files: &Vec<String>, run_key_output: &str) -> (r: Vec<String>)
    ensures
        r.deep_view() == startup_spec(folder_files.deep_view(), run_key_output@),
{
    let mut items: Vec<Vec<char>> = Vec::new();
    for i in 0..folder_files.len()
        invariant
            items@.len() == i,
            forall|k: int| 0 <= k < i ==> (#[trigger] items@[k])@ == folder_files@[k]@,
    {
        items.push(chars_of(folder_files[i].as_str()));
    }
    assert(views(items@) =~= folder_files.deep_view());
    let text = chars_of(run_key_output);
    let ls = lines_exec(&text);
    let names = nonempty_exec(trim_all_exec(&ls));
    append_all(&mut items, names);
    strings_of(&or_default_exec(items, "None"))
}

/// The firewall profiles as printed, one per non-empty line; "Unknown" where
/// there are none.
pub fn get_firewall(output: &str) -> (r: Vec<String>)
    ensures
        r.deep_view() == firewall_spec(output@),
{
    let text = chars_of(output);
    let ls = lines_exec(&text);
    let rows = nonempty_exec(trim_all_exec(&ls));
    strings_of(&or_default_exec(rows, "Unknown"))
}

/// The ARP entries: the trimmed lines that mention "dynamic" or "static";
/// "None" where there are none.
pub fn get_arp(output: &str) -> (r: Vec<String>)
    ensures
        r.deep_view() == arp_spec(output@),
{
    let text = chars_of(output);
    let ls = trim_all_exec(&lines_exec(&text));
    let dynamic = chars_of("dynamic");
    let stat = chars_of("static");
    let mut rows: Vec<Vec<char>> = Vec::new();
    for i in 0..ls.len()
        invariant
            dynamic@ == "dynamic"@,
            stat@ == "static"@,
            views(rows@) == arp_rows(views(ls@).take(i as int)),
    {
        assert(views(ls@).take(i + 1).drop_last() =~= views(ls@).take(i as int));
        if has_substring(&ls[i], &dynamic) || has_substring(&ls[i], &stat) {
            rows.push(copy_chars(&ls[i]));
        }
        assert(views(rows@) =~= arp_rows(views(ls@).take(i + 1)));
    }
    assert(views(ls@).take(ls.len() as int) =~= views(ls@));
    strings_of(&or_default_exec(rows, "None"))
}

/// The Wi-Fi network's name, trimmed; "Unknown" where there is none.
pub fn get_wifi(output: &str) -> (r: String)
    ensures
        r@ == wifi_spec(output@),
{
    let t = trim_exec(&chars_of(output));
    if t.len() > 0 {
        string_of(&t)
    } else {
        let u = "Unknown".to_owned();
        u
    }
}

fn lex_lt_exec(a: &Vec<char>, b: &Vec<char>) -> (r: bool)
    ensures
        r == lex_lt(a@, b@),
{
    let mut i: usize = 0;
    assert(a@.skip(0) =~= a@);
    assert(b@.skip(0) =~= b@);
    while i < a.len() && i < b.len() && a[i] == b[i]
        invariant
            i <= a.len(),
            i <= b.len(),
            lex_lt(a@, b@) == lex_lt(a@.skip(i as int), b@.skip(i as int)),
        decreases a.len() - i,
    {
        assert(a@.skip(i as int).drop_first() =~= a@.skip(i + 1));
        assert(b@.skip(i as int).drop_first() =~= b@.skip(i + 1));
        i = i + 1;
    }
    proof {
        assert(a@.skip(0) =~= a@);
        assert(b@.skip(0) =~= b@);
    }
    let ghost sa = a@.skip(i as int);
    let ghost sb = b@.skip(i as int);
    if i == a.len() {
        assert(sa.len() == 0);
        i < b.len()
    } else if i == b.len() {
        assert(sb.len() == 0);
        false
    } else {
        assert(sa[0] == a@[i as int] && sb[0] == b@[i as int]);
        char_lt(a[i], b[i])
    }
}

fn char_lt(x: char, y: char) -> (r: bool)
    ensures
        r == ((x as int) < (y as int)),
{
    (x as u32) < (y as u32)
}

/// Inserts `c` into a sorted vector without repeats, unless it is there.
fn insert_sorted(r: &mut Vec<Vec<char>>, c: &Vec<char>)
    requires
        strictly_sorted(views(old(r)@)),
    ensures
        strictly_sorted(views(final(r)@)),
        forall|x: Seq<char>| views(final(r)@).contains(x) <==> (views(old(r)@).contains(x) || x == c@),
{
    let ghost s0 = views(r@);
    let mut p: usize = 0;
    while p < r.len() && lex_lt_exec(&r[p], c)
        invariant
            p <= r.len(),
            s0 == views(r@),
            strictly_sorted(s0),
            forall|k: int| 0 <= k < p ==> lex_lt(#[trigger] s0[k], c@),
        decreases r.len() - p,
    {
        p = p + 1;
    }
    if p < r.len() && chars_eq(&r[p], c) {
        assert forall|x: Seq<char>| views(r@).contains(x) <==> (s0.contains(x) || x == c@) by {
            if x == c@ {
                assert(s0[p as int] == x);
            }
        }
        return;
    }
    proof {
        if p < r.len() {
            lemma_lex_total(s0[p as int], c@);
        }
    }
    r.insert(p, copy_chars(c));
    let ghost s1 = views(r@);
    assert(s1 =~= s0.insert(p as int, c@));
    assert forall|i: int, j: int| 0 <= i < j < s1.len() implies lex_lt(#[trigger] s1[i], #[trigger] s1[j]) by {
        if j < p {
        } else if j == p {
        } else if i < p {
            assert(s1[j] == s0[j - 1]);
            if i < j - 1 {
            }
            // s0[i] < c < s0[p] <= s0[j-1]
            assert(lex_lt(s0[i], c@));
            assert(lex_lt(c@, s0[p as int]));
            if j - 1 > p {
                lemma_lex_transitive(c@, s0[p as int], s0[j - 1]);
            }
            lemma_lex_transitive(s0[i], c@, s0[j - 1]);
        } else if i == p {
            assert(s1[j] == s0[j - 1]);
            if j - 1 > p {
                lemma_lex_transitive(c@, s0[p as int], s0[j - 1]);
            }
        } else {
            assert(s1[i] == s0[i - 1]);
            assert(s1[j] == s0[j - 1]);
        }
    }
    assert forall|x: Seq<char>| s1.contains(x) <==> (s0.contains(x) || x == c@) by {
        if s1.contains(x) {
            let k = choose|k: int| 0 <= k < s1.len() && s1[k] == x;
            if k < p {
                assert(s0[k] == x);
            } else if k > p {
                assert(s0[k - 1] == x);
            }
        }
        if s0.contains(x) {
            let k = choose|k: int| 0 <= k < s0.len() && s0[k] == x;
            if k < p {
                assert(s1[k] == x);
            } else {
                assert(s1[k + 1] == x);
            }
        }
        if x == c@ {
            assert(s1[p as int] == x);
        }
    }
}

/// The local addresses that are LISTENING, from netstat's rows after its four
/// header lines, without "0.0.0.0:0" and the agent's own port; sorted, each once.
pub fn get_ports(netstat_output: &str) -> (r: Vec<String>)
    ensures
        sorted_set_of(r.deep_view(), port_candidates(netstat_output@)),
{
    let text = chars_of(netstat_output);
    let ls = lines_exec(&text);
    let listening = chars_of("LISTENING");
    let unspecified = chars_of("0.0.0.0:0");
    let own = chars_of(":12789");
    let mut cands: Vec<Vec<char>> = Vec::new();
    let ghost rows = skip_lines(views(ls@), 4);
    if ls.len() > 4 {
        for i in 4..ls.len()
            invariant
                ls.len() > 4,
                rows == views(ls@).skip(4),
                listening@ == "LISTENING"@,
                unspecified@ == "0.0.0.0:0"@,
                own@ == ":12789"@,
                views(cands@) == listening_addrs(rows.take(i - 4)),
        {
            assert(rows.take(i - 4 + 1).drop_last() =~= rows.take(i - 4));
            assert(rows[i - 4] == views(ls@)[i as int]);
            let w = words_exec(&ls[i]);
            if w.len() >= 4 && chars_eq(&w[3], &listening) && !chars_eq(&w[1], &unspecified)
                && !has_suffix(&w[1], &own) {
                cands.push(copy_chars(&w[1]));
            }
            assert(views(cands@) =~= listening_addrs(rows.take(i - 4 + 1)));
        }
        assert(rows.take(ls.len() - 4) =~= rows);
    } else {
        assert(views(cands@) =~= listening_addrs(rows));
    }
    let mut sorted: Vec<Vec<char>> = Vec::new();
    let ghost cv = views(cands@);
    for i in 0..cands.len()
        invariant
            cv == views(cands@),
            strictly_sorted(views(sorted@)),
            forall|x: Seq<char>| views(sorted@).contains(x) <==> cv.take(i as int).contains(x),
    {
        insert_sorted(&mut sorted, &cands[i]);
        let ghost t0 = cv.take(i as int);
        let ghost t1 = cv.take(i + 1);
        assert(t1 =~= t0.push(cv[i as int]));
        assert forall|x: Seq<char>| views(sorted@).contains(x) <==> t1.contains(x) by {
            if x == cv[i as int] {
                assert(t1[i as int] == x);
            }
            if t0.contains(x) {
                let k = choose|k: int| 0 <= k < t0.len() && t0[k] == x;
                assert(t1[k] == x);
            }
            if t1.contains(x) {
                let k = choose|k: int| 0 <= k < t1.len() && t1[k] == x;
                if k < i {
                    assert(t0[k] == x);
                }
            }
        }
    }
    assert(cv.take(cands.len() as int) =~= cv);
    strings_of(&sorted)
}

/// The USB storage device's name as printed, trimmed; empty where there is none.
pub fn check_usb(output: &str) -> (r: String)
    ensures
        r@ == trim(output@),
{
    string_of(&trim_exec(&chars_of(output)))
}

/// One snapshot of the watched settings from the tools' output.
pub fn collect_state(readings: &Readings) -> (s: SystemState)
    requires
        readings.hosts_content matches Some(b) ==> b@.len() <= MAX_DIGEST_INPUT,
    ensures
        s.dns_servers.deep_view() == dns_spec(readings.dns_output@),
        s.hosts_hash@ == hosts_hash_spec(
            match readings.hosts_content {
                Some(b) => Some(b@),
                None => None,
            },
        ),
        s.startup_entries.deep_view() == startup_spec(
            readings.startup_files.deep_view(),
            readings.run_key_output@,
        ),
        sorted_set_of(s.listening_ports.deep_view(), port_candidates(readings.netstat_output@)),
        s.firewall_profiles.deep_view() == firewall_spec(readings.firewall_output@),
        s.arp_table.deep_view() == arp_spec(readings.arp_output@),
        s.wifi_ssid@ == wifi_spec(readings.wifi_output@),
        readings.hosts_content is Some ==> s.hosts_hash@.len() == 64,
        snapshot_of(s@, *readings),
{
    let hosts = match &readings.hosts_content {
        Some(b) => get_hosts_hash(Some(b.as_slice())),
        None => get_hosts_hash(None),
    };
    SystemState {
        dns_servers: get_dns(readings.dns_output.as_str()),
        hosts_hash: hosts,
        startup_entries: get_startup(&readings.startup_files, readings.run_key_output.as_str()),
        listening_ports: get_ports(readings.netstat_output.as_str()),
        firewall_profiles: get_firewall(readings.firewall_output.as_str()),
        arp_table: get_arp(readings.arp_output.as_str()),
        wifi_ssid: get_wifi(readings.wifi_output.as_str()),
    }
}

} // verus!
