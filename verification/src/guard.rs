//! The agent's automatic responses: when to repair, what to repair, how to
//! report it, the home-network stealth rule, and the set of blocked scanners.

use vstd::prelude::*;
use crate::text::{chars_eq, chars_of, string_of, trim, trim_exec};
use crate::status::cat3;

verus! {

/// The integrity check repairs when it found changes and stealth mode is off.
pub fn needs_repair(stealth_active: bool, diffs: &Vec<(String, String)>) -> (r: bool)
    ensures
        r == (!stealth_active && diffs@.len() > 0),
{
    !stealth_active && diffs.len() > 0
}

/// The hosts file is restored when the backup could be read and differs from
/// the current file (an unreadable current file counts as empty).
pub open spec fn hosts_restore_spec(backup: Option<Seq<char>>, current: Option<Seq<char>>) -> bool {
    match backup {
        Some(b) => b != match current {
            Some(c) => c,
            None => Seq::<char>::empty(),
        },
        None => false,
    }
}

/// The hosts file is restored exactly when a readable backup differs in any
/// way from the current content (an appended line too); an unreadable current
/// file is restored from any non-empty backup; without a backup nothing is
/// restored.
pub proof fn law_hosts_restored_iff_different(b: Seq<char>, c: Option<Seq<char>>)
    ensures
        c matches Some(cur) ==> (hosts_restore_spec(Some(b), c) <==> b != cur),
        c is None ==> (hosts_restore_spec(Some(b), c) <==> b.len() > 0),
        !hosts_restore_spec(None, c),
{
    if c is None && b.len() == 0 {
        assert(b =~= Seq::<char>::empty());
    }
}

pub fn hosts_needs_restore(backup: Option<&str>, current: Option<&str>) -> (r: bool)
    ensures
        r == hosts_restore_spec(
            match backup {
                Some(b) => Some(b@),
                None => None,
            },
            match current {
                Some(c) => Some(c@),
                None => None,
            },
        ),
{
    match backup {
        Some(b) => {
            let bv = chars_of(b);
            let cv = match current {
                Some(c) => chars_of(c),
                None => Vec::new(),
            };
            proof {
                if current is None {
                    assert(cv@ =~= Seq::<char>::empty());
                }
            }
            !chars_eq(&bv, &cv)
        },
        None => false,
    }
}

/// The startup entries to remove: each entry not in the trusted list (and not
/// the "None" placeholder), once, in the order first seen.
pub open spec fn untrusted(cs: Seq<Seq<char>>, trusted: Seq<Seq<char>>) -> Seq<Seq<char>>
    decreases cs.len(),
{
    if cs.len() == 0 {
        Seq::empty()
    } else {
        let r = untrusted(cs.drop_last(), trusted);
        let x = cs.last();
        if !trusted.contains(x) && x != "None"@ && !r.contains(x) {
            r.push(x)
        } else {
            r
        }
    }
}

fn strings_contain(v: &Vec<String>, x: &String) -> (r: bool)
    ensures
        r == v.deep_view().contains(x@),
{
    for i in 0..v.len()
        invariant
            forall|k: int| 0 <= k < i ==> v@[k]@ != x@,
    {
        if v[i] == *x {
            assert(v.deep_view()[i as int] == x@);
            return true;
        }
    }
    proof {
        if v.deep_view().contains(x@) {
            let k = choose|k: int| 0 <= k < v.deep_view().len() && v.deep_view()[k] == x@;
            assert(v@[k]@ == x@);
        }
    }
    false
}

/// The startup entries that the integrity check removes.
pub fn untrusted_startup(current: &Vec<String>, trusted: &Vec<String>) -> (r: Vec<String>)
    ensures
        r.deep_view() == untrusted(current.deep_view(), trusted.deep_view()),
{
    let none = "None".to_owned();
    let mut r: Vec<String> = Vec::new();
    for i in 0..current.len()
        invariant
            none@ == "None"@,
            r.deep_view() == untrusted(current.deep_view().take(i as int), trusted.deep_view()),
    {
        assert(current.deep_view().take(i + 1).drop_last() =~= current.deep_view().take(i as int));
        let x = &current[i];
        assert(current.deep_view().take(i + 1).last() == x@);
        if !strings_contain(trusted, x) && *x != none && !strings_contain(&r, x) {
            let ghost r0 = r@;
            r.push(x.clone());
            assert(r.deep_view() =~= untrusted(current.deep_view().take(i + 1), trusted.deep_view())) by {
                assert forall|k: int| 0 <= k < r0.len() implies r@[k] == r0[k] by {}
            }
        }
    }
    assert(current.deep_view().take(current.len() as int) =~= current.deep_view());
    r
}

/// The messages of one repair: one per step that ran, then one per startup
/// entry removed.
pub open spec fn repair_report_spec(
    hosts_restored: bool,
    dns_flushed: bool,
    dns_dhcp: bool,
    firewall_enabled: bool,
    arp_flushed: bool,
    removed: Seq<Seq<char>>,
) -> Seq<Seq<char>> {
    (if hosts_restored {
        seq!["auto_repair: Hosts restored"@]
    } else {
        Seq::empty()
    }) + (if dns_flushed {
        seq!["auto_repair: DNS reset"@]
    } else {
        Seq::empty()
    }) + (if dns_dhcp {
        seq!["auto_repair: DNS set to DHCP"@]
    } else {
        Seq::empty()
    }) + (if firewall_enabled {
        seq!["auto_repair: Firewall re-enabled"@]
    } else {
        Seq::empty()
    }) + (if arp_flushed {
        seq!["auto_repair: ARP flushed"@]
    } else {
        Seq::empty()
    }) + Seq::new(removed.len(), |i: int| "auto_repair: Removed startup: "@ + removed[i])
}

fn push_str(v: &mut Vec<String>, s: String)
    ensures
        final(v).deep_view() == old(v).deep_view().push(s@),
{
    let ghost v0 = v@;
    v.push(s);
    assert(v.deep_view() =~= old(v).deep_view().push(s@)) by {
        assert forall|k: int| 0 <= k < v0.len() implies v@[k] == v0[k] by {}
    }
}

fn prefixed(p: &str, x: &str) -> (r: String)
    ensures
        r@ == p@ + x@,
{
    let mut v = chars_of(p);
    let xv = chars_of(x);
    let ghost v0 = v@;
    for i in 0..xv.len()
        invariant
            v@ == v0 + xv@.take(i as int),
    {
        v.push(xv[i]);
        assert(v@ =~= v0 + xv@.take(i + 1));
    }
    assert(xv@.take(xv.len() as int) =~= xv@);
    string_of(&v)
}

/// The messages of one repair run.
pub fn repair_report(
    hosts_restored: bool,
    dns_flushed: bool,
    dns_dhcp: bool,
    firewall_enabled: bool,
    arp_flushed: bool,
    removed: &Vec<String>,
) -> (r: Vec<String>)
    ensures
        r.deep_view() == repair_report_spec(
            hosts_restored,
            dns_flushed,
            dns_dhcp,
            firewall_enabled,
            arp_flushed,
            removed.deep_view(),
        ),
{
    let mut r: Vec<String> = Vec::new();
    if hosts_restored {
        push_str(&mut r, "auto_repair: Hosts restored".to_owned());
    }
    if dns_flushed {
        push_str(&mut r, "auto_repair: DNS reset".to_owned());
    }
    if dns_dhcp {
        push_str(&mut r, "auto_repair: DNS set to DHCP".to_owned());
    }
    if firewall_enabled {
        push_str(&mut r, "auto_repair: Firewall re-enabled".to_owned());
    }
    if arp_flushed {
        push_str(&mut r, "auto_repair: ARP flushed".to_owned());
    }
    let ghost base = r.deep_view();
    assert(base =~= repair_report_spec(
        hosts_restored,
        dns_flushed,
        dns_dhcp,
        firewall_enabled,
        arp_flushed,
        Seq::empty(),
    ));
    for i in 0..removed.len()
        invariant
            r.deep_view() == base + Seq::new(
                i as nat,
                |j: int| "auto_repair: Removed startup: "@ + removed.deep_view()[j],
            ),
    {
        push_str(&mut r, prefixed("auto_repair: Removed startup: ", removed[i].as_str()));
        assert(r.deep_view() =~= base + Seq::new(
            (i + 1) as nat,
            |j: int| "auto_repair: Removed startup: "@ + removed.deep_view()[j],
        ));
    }
    assert(r.deep_view() =~= repair_report_spec(
        hosts_restored,
        dns_flushed,
        dns_dhcp,
        firewall_enabled,
        arp_flushed,
        removed.deep_view(),
    ));
    r
}

/// What the home-network rule does on one tick.
#[derive(Clone, Copy, PartialEq, Eq, Structural, Debug)]
pub enum StealthAction {
    /// Nothing to do: no home network saved, or no network known.
    Nothing,
    /// On the home network: leave stealth mode.
    StealthOff,
    /// On another known network: take a new baseline, clear the events, and
    /// enter stealth mode.
    ResetAndStealthOn,
}

/// The home-network rule: stealth everywhere but on the saved home network.
pub open spec fn stealth_action_spec(home_file: Option<Seq<char>>, current_wifi: Seq<char>) -> StealthAction {
    match home_file {
        None => StealthAction::Nothing,
        Some(f) => {
            let home = trim(f);
            if home.len() == 0 {
                StealthAction::Nothing
            } else if current_wifi == home {
                StealthAction::StealthOff
            } else if current_wifi != "Unknown"@ {
                StealthAction::ResetAndStealthOn
            } else {
                StealthAction::Nothing
            }
        },
    }
}

/// One tick of the home-network rule, from the saved home file's content
/// (`None` where it could not be read) and the current Wi-Fi name.
pub fn auto_stealth_action(home_file: Option<&str>, current_wifi: &str) -> (a: StealthAction)
    ensures
        a == stealth_action_spec(
            match home_file {
                Some(f) => Some(f@),
                None => None,
            },
            current_wifi@,
        ),
{
    match home_file {
        None => StealthAction::Nothing,
        Some(f) => {
            let home = trim_exec(&chars_of(f));
            let cur = chars_of(current_wifi);
            if home.len() == 0 {
                StealthAction::Nothing
            } else if chars_eq(&cur, &home) {
                StealthAction::StealthOff
            } else if !chars_eq(&cur, &chars_of("Unknown")) {
                StealthAction::ResetAndStealthOn
            } else {
                StealthAction::Nothing
            }
        },
    }
}

/// On the saved home network stealth ends; on any other known network the
/// device re-baselines and hides.
pub proof fn law_stealth_off_only_at_home(f: Seq<char>, current_wifi: Seq<char>)
    requires
        trim(f).len() > 0,
    ensures
        (stealth_action_spec(Some(f), current_wifi) == StealthAction::StealthOff) <==> current_wifi
            == trim(f),
        current_wifi != trim(f) && current_wifi != "Unknown"@ ==> stealth_action_spec(
            Some(f),
            current_wifi,
        ) == StealthAction::ResetAndStealthOn,
{
}

/// How many distinct blocked scanners the blocker remembers before it starts over.
pub const BLOCKED_LIMIT: usize = 50;

/// The remote hosts already blocked by the port-scan responder.
pub struct ScanBlocker {
    blocked: Vec<String>,
}

/// No entry twice.
pub open spec fn distinct(s: Seq<Seq<char>>) -> bool {
    forall|i: int, j: int| 0 <= i < j < s.len() ==> s[i] != s[j]
}

impl ScanBlocker {
    /// The blocked hosts, as character sequences.
    pub closed spec fn blocked_hosts(&self) -> Seq<Seq<char>> {
        self.blocked.deep_view()
    }

    #[verifier::type_invariant]
    spec fn inv(&self) -> bool {
        &&& distinct(self.blocked.deep_view())
        &&& self.blocked.deep_view().len() <= BLOCKED_LIMIT
    }

    /// A blocker that has blocked nothing.
    pub fn new() -> (b: Self)
        ensures
            b.blocked_hosts() == Seq::<Seq<char>>::empty(),
    {
        let b = ScanBlocker { blocked: Vec::new() };
        assert(b.blocked.deep_view() =~= Seq::<Seq<char>>::empty());
        b
    }

    /// One tick of the port-scan responder with the detector's finding: block
    /// (true) a reported host not blocked yet and remember it; forget all
    /// hosts once more than `BLOCKED_LIMIT` are remembered.
    pub fn observe(&mut self, intruder: &str) -> (block: bool)
        ensures
            block == (intruder@.len() > 0 && !old(self).blocked_hosts().contains(intruder@)),
            ({
                let grown = if block {
                    old(self).blocked_hosts().push(intruder@)
                } else {
                    old(self).blocked_hosts()
                };
                final(self).blocked_hosts() == if grown.len() > BLOCKED_LIMIT {
                    Seq::<Seq<char>>::empty()
                } else {
                    grown
                }
            }),
            distinct(final(self).blocked_hosts()),
            final(self).blocked_hosts().len() <= BLOCKED_LIMIT,
    {
        proof {
            use_type_invariant(&*self);
        }
        let ip = intruder.to_owned();
        let block = !intruder.is_empty() && !strings_contain(&self.blocked, &ip);
        if block {
            let ghost d0 = self.blocked.deep_view();
            let mut v = Vec::new();
            std::mem::swap(&mut v, &mut self.blocked);
            assert(v.deep_view() == d0);
            let ghost v0 = v@;
            v.push(ip);
            assert(v.deep_view() =~= d0.push(intruder@)) by {
                assert forall|k: int| 0 <= k < v0.len() implies v@[k] == v0[k] by {}
            }
            assert forall|i: int, j: int| 0 <= i < j < v.deep_view().len() implies v.deep_view()[i]
                != v.deep_view()[j] by {
                if j == d0.len() {
                    assert(d0[i] == v.deep_view()[i]);
                }
            }
            if v.len() > BLOCKED_LIMIT {
                v = Vec::new();
                assert(v.deep_view() =~= Seq::<Seq<char>>::empty());
            }
            self.blocked = v;
        }
        proof {
            use_type_invariant(&*self);
        }
        block
    }
}

/// The events that the background responders record.
#[derive(Clone, Copy, PartialEq, Eq, Structural, Debug)]
pub enum Response {
    /// A scanning host was blocked at the firewall.
    ScannerBlocked,
    /// A USB storage device was disabled.
    UsbDisabled,
    /// The network adapters were disabled on a ransomware alert.
    NetworkKilled,
    /// The DNS cache was cleared after a phishing hit.
    DnsCacheCleared,
    /// The phishing blocklist was downloaded again.
    BlocklistUpdated,
}

pub open spec fn response_event_spec(r: Response, subject: Seq<char>) -> Seq<char> {
    match r {
        Response::ScannerBlocked => cat3("auto_block: "@, subject, " blocked"@),
        Response::UsbDisabled => cat3("auto_eject: "@, subject, " disabled"@),
        Response::NetworkKilled => "auto_kill: Network disabled - ransomware detected!"@,
        Response::DnsCacheCleared => "auto_repair: DNS cache cleared"@,
        Response::BlocklistUpdated => "phishing_list: Updated to latest version"@,
    }
}

/// The event text of a response; `subject` is the host or device it concerns.
pub fn response_event(r: Response, subject: &str) -> (e: String)
    ensures
        e@ == response_event_spec(r, subject@),
{
    match r {
        Response::ScannerBlocked => {
            let a = prefixed("auto_block: ", subject);
            let e = prefixed(a.as_str(), " blocked");
            e
        },
        Response::UsbDisabled => {
            let a = prefixed("auto_eject: ", subject);
            let e = prefixed(a.as_str(), " disabled");
            e
        },
        Response::NetworkKilled => "auto_kill: Network disabled - ransomware detected!".to_owned(),
        Response::DnsCacheCleared => "auto_repair: DNS cache cleared".to_owned(),
        Response::BlocklistUpdated => "phishing_list: Updated to latest version".to_owned(),
    }
}

} // verus!
