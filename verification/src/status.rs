//! The trust verdict and the local status endpoint: what a request asks for,
//! the status that each answer carries, and the bytes of the HTTP responses.

use vstd::prelude::*;
use vstd::utf8::encode_utf8;
use crate::text::{chars_of, contains, has_substring, string_of};
use crate::crypto::copy_bytes;
use crate::detect::{diff_spec, law_diff_same_is_empty};
use crate::state::{law_snapshot_determined, snapshot_of, Readings, StateView};

verus! {

/// How far the device can be trusted, and the stealth answers.
#[derive(Clone, Copy, PartialEq, Eq, Structural, Debug)]
pub enum TrustState {
    Trusted,
    Warning,
    Compromised,
    Stealth,
    Visible,
}

/// The name of a state, as the endpoint reports it.
pub open spec fn state_text(s: TrustState) -> Seq<char> {
    match s {
        TrustState::Trusted => "Trusted"@,
        TrustState::Warning => "Warning"@,
        TrustState::Compromised => "Compromised"@,
        TrustState::Stealth => "Stealth"@,
        TrustState::Visible => "Visible"@,
    }
}

pub fn state_name(s: TrustState) -> (r: String)
    ensures
        r@ == state_text(s),
{
    match s {
        TrustState::Trusted => "Trusted".to_owned(),
        TrustState::Warning => "Warning".to_owned(),
        TrustState::Compromised => "Compromised".to_owned(),
        TrustState::Stealth => "Stealth".to_owned(),
        TrustState::Visible => "Visible".to_owned(),
    }
}

/// Each verdict is reported under its own name, and no two verdicts share a
/// name; a check with exactly one change and no detector firing is reported
/// as "Warning", never as "Trusted".
pub proof fn law_state_names_distinct(s1: TrustState, s2: TrustState)
    ensures
        s1 != s2 ==> state_text(s1) != state_text(s2),
        state_text(verdict_spec(1, false, false, false)) == "Warning"@,
        state_text(verdict_spec(1, false, false, false)) != "Trusted"@,
        state_text(verdict_spec(0, false, false, false)) == "Trusted"@,
{
    reveal_strlit("Trusted");
    reveal_strlit("Warning");
    reveal_strlit("Compromised");
    reveal_strlit("Stealth");
    reveal_strlit("Visible");
    assert("Trusted"@[0] != "Warning"@[0]);
    assert("Trusted"@[0] != "Stealth"@[0]);
    assert("Trusted"@[0] != "Visible"@[0]);
    assert("Warning"@[0] != "Stealth"@[0]);
    assert("Warning"@[0] != "Visible"@[0]);
    assert("Stealth"@[0] != "Visible"@[0]);
    assert("Compromised"@.len() != "Trusted"@.len());
}

/// What the endpoint reports.
pub struct DaemonStatus {
    pub trust_state: String,
    pub token: String,
    pub last_check: String,
    pub latest_events: Vec<String>,
}

/// How bad a verdict is: Trusted below Warning below Compromised.
pub open spec fn severity(s: TrustState) -> int {
    match s {
        TrustState::Warning => 1,
        TrustState::Compromised => 2,
        _ => 0,
    }
}

/// The verdict of one check. Any port scan or ransomware alert is
/// Compromised; else one changed setting is a Warning and more are
/// Compromised; a phishing hit makes an otherwise Trusted device a Warning.
pub open spec fn verdict_spec(changes: nat, scan: bool, phishing: bool, ransomware: bool) -> TrustState {
    if scan || ransomware || changes >= 2 {
        TrustState::Compromised
    } else if changes == 1 || phishing {
        TrustState::Warning
    } else {
        TrustState::Trusted
    }
}

/// The verdict of one check from the number of changed settings and the
/// detectors' findings.
pub fn assess(changes: usize, scan: bool, phishing: bool, ransomware: bool) -> (s: TrustState)
    ensures
        s == verdict_spec(changes as nat, scan, phishing, ransomware),
{
    let mut state = if changes == 0 {
        TrustState::Trusted
    } else if changes == 1 {
        TrustState::Warning
    } else {
        TrustState::Compromised
    };
    if scan {
        state = TrustState::Compromised;
    }
    if phishing {
        if state == TrustState::Trusted {
            state = TrustState::Warning;
        }
    }
    if ransomware {
        state = TrustState::Compromised;
    }
    state
}

/// The newest `k` events first, at most five.
pub open spec fn recent_events(events: Seq<Seq<char>>) -> Seq<Seq<char>> {
    let n = events.len();
    let k = if n < 5 {
        n
    } else {
        5
    };
    Seq::new(k, |i: int| events[n - 1 - i])
}

/// `a` followed by `b` followed by `c`.
pub open spec fn cat3(a: Seq<char>, b: Seq<char>, c: Seq<char>) -> Seq<char> {
    a + b + c
}

/// The findings of this check, in the order port scan, phishing, ransomware, USB.
pub open spec fn finding_events(intruder: Seq<char>, phishing: Seq<char>, ransomware: bool, usb: Seq<char>) -> Seq<
    Seq<char>,
> {
    (if intruder.len() > 0 {
        seq![cat3("port_scan: "@, intruder, " - BLOCKED"@)]
    } else {
        Seq::empty()
    }) + (if phishing.len() > 0 {
        seq![cat3("phishing: "@, phishing, " - DNS cleared"@)]
    } else {
        Seq::empty()
    }) + (if ransomware {
        seq!["ransomware: Canary files modified! - Network disabled"@]
    } else {
        Seq::empty()
    }) + (if usb.len() > 0 {
        seq![cat3("usb: "@, usb, " - EJECTED"@)]
    } else {
        Seq::empty()
    })
}

fn concat3(a: &str, b: &str, c: &str) -> (r: String)
    ensures
        r@ == cat3(a@, b@, c@),
{
    let mut v = chars_of(a);
    let bv = chars_of(b);
    let cv = chars_of(c);
    let ghost v0 = v@;
    for i in 0..bv.len()
        invariant
            v@ == v0 + bv@.take(i as int),
    {
        v.push(bv[i]);
        assert(v@ =~= v0 + bv@.take(i + 1));
    }
    assert(bv@.take(bv.len() as int) =~= bv@);
    let ghost v1 = v@;
    for i in 0..cv.len()
        invariant
            v@ == v1 + cv@.take(i as int),
    {
        v.push(cv[i]);
        assert(v@ =~= v1 + cv@.take(i + 1));
    }
    assert(cv@.take(cv.len() as int) =~= cv@);
    string_of(&v)
}

fn push_string(v: &mut Vec<String>, s: String)
    ensures
        final(v).deep_view() == old(v).deep_view().push(s@),
{
    let ghost v0 = v@;
    v.push(s);
    assert(v.deep_view() =~= old(v).deep_view().push(s@)) by {
        assert forall|k: int| 0 <= k < v0.len() implies v@[k] == v0[k] by {}
    }
}

/// The status that the endpoint reports after a full check: the verdict, the
/// token and time given, and the five newest stored events (newest first)
/// followed by this check's findings.
pub fn check_report(
    changes: usize,
    intruder: &str,
    phishing: &str,
    ransomware: bool,
    usb_threat: &str,
    events: &Vec<String>,
    token: String,
    last_check: String,
) -> (st: DaemonStatus)
    ensures
        st.trust_state@ == state_text(
            verdict_spec(changes as nat, intruder@.len() > 0, phishing@.len() > 0, ransomware),
        ),
        st.token@ == token@,
        st.last_check@ == last_check@,
        st.latest_events.deep_view() == recent_events(events.deep_view()) + finding_events(
            intruder@,
            phishing@,
            ransomware,
            usb_threat@,
        ),
{
    let state = assess(changes, !intruder.is_empty(), !phishing.is_empty(), ransomware);
    let n = events.len();
    let k: usize = if n < 5 {
        n
    } else {
        5
    };
    let mut all: Vec<String> = Vec::new();
    for i in 0..k
        invariant
            n == events.len(),
            k <= n,
            k == (if n < 5 {
                n
            } else {
                5
            }),
            all@.len() == i,
            forall|j: int| 0 <= j < i ==> (#[trigger] all@[j])@ == events@[n - 1 - j]@,
    {
        all.push(events[n - 1 - i].clone());
    }
    assert(all.deep_view() =~= recent_events(events.deep_view()));
    let ghost base = all.deep_view();
    if !intruder.is_empty() {
        push_string(&mut all, concat3("port_scan: ", intruder, " - BLOCKED"));
    }
    let ghost a1 = all.deep_view();
    if !phishing.is_empty() {
        push_string(&mut all, concat3("phishing: ", phishing, " - DNS cleared"));
    }
    let ghost a2 = all.deep_view();
    if ransomware {
        push_string(&mut all, "ransomware: Canary files modified! - Network disabled".to_owned());
    }
    let ghost a3 = all.deep_view();
    let usb_found = !usb_threat.is_empty();
    if usb_found {
        push_string(&mut all, concat3("usb: ", usb_threat, " - EJECTED"));
    }
    assert(all.deep_view() =~= base + finding_events(intruder@, phishing@, ransomware, usb_threat@));
    DaemonStatus { trust_state: state_name(state), token, last_check, latest_events: all }
}

/// The answers that do not run a check.
#[derive(Clone, Copy, PartialEq, Eq, Structural, Debug)]
pub enum Reply {
    /// The current Wi-Fi network was saved as the home network.
    HomeSet,
    /// A new baseline was taken and the events were cleared.
    BaselineReset,
    /// Stealth mode was switched on.
    StealthOn,
    /// Stealth mode was switched off.
    StealthOff,
    /// Stealth mode is on: no check is run while the device hides.
    StealthActive,
}

pub open spec fn reply_state(r: Reply) -> TrustState {
    match r {
        Reply::HomeSet => TrustState::Trusted,
        Reply::BaselineReset => TrustState::Trusted,
        Reply::StealthOn => TrustState::Stealth,
        Reply::StealthOff => TrustState::Visible,
        Reply::StealthActive => TrustState::Stealth,
    }
}

pub open spec fn reply_events(r: Reply, ssid: Seq<char>) -> Seq<Seq<char>> {
    match r {
        Reply::HomeSet => seq!["Home WiFi set: "@ + ssid],
        Reply::BaselineReset => Seq::empty(),
        Reply::StealthOn => seq!["Stealth ON"@],
        Reply::StealthOff => seq!["Stealth OFF"@],
        Reply::StealthActive => seq!["Stealth mode active - device hidden"@],
    }
}

/// The status that an answer without a check carries; `ssid` is the network
/// that was saved as home (used by `HomeSet` only).
pub fn reply_status(r: Reply, ssid: &str, token: String, last_check: String) -> (st: DaemonStatus)
    ensures
        st.trust_state@ == state_text(reply_state(r)),
        st.token@ == token@,
        st.last_check@ == last_check@,
        st.latest_events.deep_view() == reply_events(r, ssid@),
{
    let mut ev: Vec<String> = Vec::new();
    match r {
        Reply::HomeSet => {
            push_string(&mut ev, concat3("Home WiFi set: ", ssid, ""));
            proof {
                reveal_strlit("");
                assert(("Home WiFi set: "@ + ssid@ + ""@) =~= ("Home WiFi set: "@ + ssid@));
            }
        },
        Reply::BaselineReset => {},
        Reply::StealthOn => {
            push_string(&mut ev, "Stealth ON".to_owned());
        },
        Reply::StealthOff => {
            push_string(&mut ev, "Stealth OFF".to_owned());
        },
        Reply::StealthActive => {
            push_string(&mut ev, "Stealth mode active - device hidden".to_owned());
        },
    }
    assert(ev.deep_view() =~= reply_events(r, ssid@));
    DaemonStatus { trust_state: state_name(reply_state_exec(r)), token, last_check, latest_events: ev }
}

fn reply_state_exec(r: Reply) -> (s: TrustState)
    ensures
        s == reply_state(r),
{
    match r {
        Reply::HomeSet => TrustState::Trusted,
        Reply::BaselineReset => TrustState::Trusted,
        Reply::StealthOn => TrustState::Stealth,
        Reply::StealthOff => TrustState::Visible,
        Reply::StealthActive => TrustState::Stealth,
    }
}

// ---------------------------------------------------------------------------
// Requests.
// ---------------------------------------------------------------------------

/// What a request to the endpoint asks for.
#[derive(Clone, Copy, PartialEq, Eq, Structural, Debug)]
pub enum Route {
    /// A POST without the current token: answered 403.
    Forbidden,
    /// Save the current Wi-Fi as the home network and leave stealth.
    SetHome,
    /// Take a new baseline and clear the events.
    Reset,
    /// Switch stealth mode on.
    StealthOn,
    /// Switch stealth mode off.
    StealthOff,
    /// Report the status.
    Status,
}

/// The route of a request: a request that mentions POST must carry
/// `token=<current token>`; then the first of "POST /home", "POST /reset",
/// "POST /stealth", "POST /visible" that it mentions decides; else it asks for
/// the status.
pub open spec fn route_spec(req: Seq<char>, token: Seq<char>) -> Route {
    if contains(req, "POST"@) && !contains(req, "token="@ + token) {
        Route::Forbidden
    } else if contains(req, "POST /home"@) {
        Route::SetHome
    } else if contains(req, "POST /reset"@) {
        Route::Reset
    } else if contains(req, "POST /stealth"@) {
        Route::StealthOn
    } else if contains(req, "POST /visible"@) {
        Route::StealthOff
    } else {
        Route::Status
    }
}

pub fn route_request(request: &str, token: &str) -> (r: Route)
    ensures
        r == route_spec(request@, token@),
{
    let req = chars_of(request);
    let mut needle = chars_of("token=");
    let tv = chars_of(token);
    let ghost n0 = needle@;
    for i in 0..tv.len()
        invariant
            needle@ == n0 + tv@.take(i as int),
    {
        needle.push(tv[i]);
        assert(needle@ =~= n0 + tv@.take(i + 1));
    }
    assert(tv@.take(tv.len() as int) =~= tv@);
    if has_substring(&req, &chars_of("POST")) && !has_substring(&req, &needle) {
        Route::Forbidden
    } else if has_substring(&req, &chars_of("POST /home")) {
        Route::SetHome
    } else if has_substring(&req, &chars_of("POST /reset")) {
        Route::Reset
    } else if has_substring(&req, &chars_of("POST /stealth")) {
        Route::StealthOn
    } else if has_substring(&req, &chars_of("POST /visible")) {
        Route::StealthOff
    } else {
        Route::Status
    }
}

// ---------------------------------------------------------------------------
// Responses.
// ---------------------------------------------------------------------------

/// The decimal digits of `n`, as ASCII bytes.
pub open spec fn decimal(n: nat) -> Seq<u8>
    decreases n,
{
    if n < 10 {
        seq![(48 + n) as u8]
    } else {
        decimal(n / 10).push((48 + n % 10) as u8)
    }
}

pub fn decimal_bytes(n: usize) -> (r: Vec<u8>)
    ensures
        r@ == decimal(n as nat),
    decreases n,
{
    if n < 10 {
        let mut v: Vec<u8> = Vec::new();
        v.push((48 + n) as u8);
        assert(v@ =~= decimal(n as nat));
        v
    } else {
        let mut v = decimal_bytes(n / 10);
        v.push((48 + n % 10) as u8);
        v
    }
}

/// The header of a 200 answer up to the length: plain, or the status answer's
/// header, which carries its Content-Type with a literal `\r\n` in the text.
pub open spec fn ok_head(typed: bool) -> Seq<char> {
    if typed {
        "HTTP/1.1 200 OK\r\nContent-Type: application/json\\r\\nContent-Length: "@
    } else {
        "HTTP/1.1 200 OK\r\nContent-Length: "@
    }
}

/// A 200 answer with the JSON body: header, body length in decimal, blank
/// line, body.
pub open spec fn ok_response_spec(body: Seq<u8>, typed: bool) -> Seq<u8> {
    encode_utf8(ok_head(typed)) + decimal(body.len()) + encode_utf8("\r\n\r\n"@) + body
}

fn append_bytes(v: &mut Vec<u8>, b: &[u8])
    ensures
        final(v)@ == old(v)@ + b@,
{
    let ghost v0 = v@;
    for i in 0..b.len()
        invariant
            v@ == v0 + b@.take(i as int),
    {
        v.push(b[i]);
        assert(v@ =~= v0 + b@.take(i + 1));
    }
    assert(b@.take(b@.len() as int) =~= b@);
}

/// The bytes of a 200 answer that carries `body`.
pub fn ok_response(body: &[u8], typed: bool) -> (r: Vec<u8>)
    ensures
        r@ == ok_response_spec(body@, typed),
{
    let head = if typed {
        "HTTP/1.1 200 OK\r\nContent-Type: application/json\\r\\nContent-Length: "
    } else {
        "HTTP/1.1 200 OK\r\nContent-Length: "
    };
    let mut r = copy_bytes(head.as_bytes());
    let len = decimal_bytes(body.len());
    append_bytes(&mut r, len.as_slice());
    append_bytes(&mut r, "\r\n\r\n".as_bytes());
    append_bytes(&mut r, body);
    r
}

/// The bytes of the 403 answer to a POST without the current token.
pub fn forbidden_response() -> (r: Vec<u8>)
    ensures
        r@ == encode_utf8("HTTP/1.1 403 Forbidden\r\n\r\n"@),
{
    copy_bytes("HTTP/1.1 403 Forbidden\r\n\r\n".as_bytes())
}

// ---------------------------------------------------------------------------
// Laws of the verdict.
// ---------------------------------------------------------------------------

/// A device is Trusted exactly when nothing changed and no detector fired.
pub proof fn law_trusted_iff_quiet(changes: nat, scan: bool, phishing: bool, ransomware: bool)
    ensures
        (verdict_spec(changes, scan, phishing, ransomware) == TrustState::Trusted) <==> (changes
            == 0 && !scan && !phishing && !ransomware),
{
}

/// A port scan or a ransomware alert always makes the device Compromised.
pub proof fn law_attack_compromises(changes: nat, scan: bool, phishing: bool, ransomware: bool)
    requires
        scan || ransomware,
    ensures
        verdict_spec(changes, scan, phishing, ransomware) == TrustState::Compromised,
{
}

/// One changed setting alone is a Warning; two or more are Compromised.
pub proof fn law_changes_grade(changes: nat, phishing: bool)
    requires
        changes >= 1,
    ensures
        changes == 1 ==> verdict_spec(changes, false, phishing, false) == TrustState::Warning,
        changes >= 2 ==> verdict_spec(changes, false, phishing, false) == TrustState::Compromised,
{
}

/// More findings never make the verdict better.
pub proof fn law_verdict_monotone(
    c1: nat,
    s1: bool,
    p1: bool,
    r1: bool,
    c2: nat,
    s2: bool,
    p2: bool,
    r2: bool,
)
    requires
        c1 <= c2,
        s1 ==> s2,
        p1 ==> p2,
        r1 ==> r2,
    ensures
        severity(verdict_spec(c1, s1, p1, r1)) <= severity(verdict_spec(c2, s2, p2, r2)),
{
}

/// Right after a new baseline, a device on which nothing changed and no
/// detector fires is Trusted.
pub proof fn law_unchanged_device_is_trusted(a: StateView, wifi_now: Seq<char>, dns_now_len: nat)
    ensures
        verdict_spec(diff_spec(a, a, wifi_now, dns_now_len).len(), false, false, false)
            == TrustState::Trusted,
{
    law_diff_same_is_empty(a, wifi_now, dns_now_len);
}

/// Two snapshots from the same readings show no change, so with no detector
/// firing the device is Trusted: a freshly reset baseline reports Trusted.
pub proof fn law_same_readings_no_change(
    v1: StateView,
    v2: StateView,
    r: Readings,
    wifi_now: Seq<char>,
    dns_now_len: nat,
)
    requires
        snapshot_of(v1, r),
        snapshot_of(v2, r),
    ensures
        diff_spec(v1, v2, wifi_now, dns_now_len).len() == 0,
        verdict_spec(diff_spec(v1, v2, wifi_now, dns_now_len).len(), false, false, false)
            == TrustState::Trusted,
{
    law_snapshot_determined(v1, v2, r);
    law_diff_same_is_empty(v1, wifi_now, dns_now_len);
}

/// A POST that does not carry the current token is refused, whatever it asks.
pub proof fn law_post_needs_token(req: Seq<char>, token: Seq<char>)
    requires
        contains(req, "POST"@),
        !contains(req, "token="@ + token),
    ensures
        route_spec(req, token) == Route::Forbidden,
{
}

/// A request that does not mention POST never changes anything: it only asks
/// for the status.
pub proof fn law_get_only_reads(req: Seq<char>, token: Seq<char>)
    requires
        !contains(req, "POST"@),
    ensures
        route_spec(req, token) == Route::Status,
{
    reveal_strlit("POST");
    reveal_strlit("POST /home");
    reveal_strlit("POST /reset");
    reveal_strlit("POST /stealth");
    reveal_strlit("POST /visible");
    let p = "POST"@;
    assert forall|n: Seq<char>| n.len() >= 4 && n.take(4) == p && contains(req, n) implies false by {
        let i = choose|i: int| crate::text::occurs_at(req, n, i);
        assert(req.subrange(i, i + 4) =~= n.take(4));
        assert(crate::text::occurs_at(req, p, i));
    }
    assert("POST /home"@.take(4) =~= p);
    assert("POST /reset"@.take(4) =~= p);
    assert("POST /stealth"@.take(4) =~= p);
    assert("POST /visible"@.take(4) =~= p);
}

} // verus!
