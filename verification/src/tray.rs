//! The tray's presentation of the endpoint's status: the icon, its tooltip,
//! and when an alert opens.

use vstd::prelude::*;
use crate::text::{chars_of, chars_eq, string_of};

verus! {

/// The tray icon's colour.
#[derive(Clone, Copy, PartialEq, Eq, Structural, Debug)]
pub enum IconColor {
    Green,
    Yellow,
    Red,
    Gray,
    Orange,
}

pub open spec fn rgb_spec(c: IconColor) -> (u8, u8, u8) {
    match c {
        IconColor::Green => (0, 255, 0),
        IconColor::Yellow => (255, 255, 0),
        IconColor::Red => (255, 0, 0),
        IconColor::Gray => (128, 128, 128),
        IconColor::Orange => (255, 140, 0),
    }
}

/// Each colour is drawn in its own RGB value, so no two verdicts share an
/// icon; a Compromised verdict is drawn pure red, unlike a Trusted one.
pub proof fn law_colours_distinct(c1: IconColor, c2: IconColor, events: Seq<Seq<char>>)
    ensures
        c1 != c2 ==> rgb_spec(c1) != rgb_spec(c2),
        rgb_spec(tray_view_spec("Compromised"@, events).0) == (255u8, 0u8, 0u8),
        rgb_spec(tray_view_spec("Compromised"@, events).0) != rgb_spec(
            tray_view_spec("Trusted"@, events).0,
        ),
        rgb_spec(tray_view_spec("Warning"@, events).0) != rgb_spec(
            tray_view_spec("Trusted"@, events).0,
        ),
{
    reveal_strlit("Trusted");
    reveal_strlit("Warning");
    reveal_strlit("Compromised");
    reveal_strlit("Stealth");
    reveal_strlit("Visible");
    assert("Compromised"@.len() != "Trusted"@.len());
    assert("Compromised"@.len() != "Stealth"@.len());
    assert("Compromised"@.len() != "Visible"@.len());
    assert("Compromised"@.len() != "Warning"@.len());
    assert("Warning"@[0] != "Trusted"@[0]);
    assert("Warning"@[0] != "Stealth"@[0]);
    assert("Warning"@[0] != "Visible"@[0]);
}

/// The red, green and blue of an icon colour.
pub fn icon_rgb(c: IconColor) -> (r: (u8, u8, u8))
    ensures
        r == rgb_spec(c),
{
    match c {
        IconColor::Green => (0, 255, 0),
        IconColor::Yellow => (255, 255, 0),
        IconColor::Red => (255, 0, 0),
        IconColor::Gray => (128, 128, 128),
        IconColor::Orange => (255, 140, 0),
    }
}

/// The icon's side in pixels.
pub const ICON_SIZE: u32 = 16;

/// Pixel (x, y) of the 16x16 icon lies in the disc of radius 7 around its
/// centre: the distance from the pixel's centre (x + 0.5, y + 0.5) to (8, 8) is
/// at most 7, written in half-pixel units so that it is exact.
pub open spec fn in_disc(x: int, y: int) -> bool {
    (2 * x - 15) * (2 * x - 15) + (2 * y - 15) * (2 * y - 15) <= 196
}

/// Channel `ch` of pixel `p` (row-major) of the icon drawn in (r, g, b).
pub open spec fn icon_byte(r: u8, g: u8, b: u8, p: int, ch: int) -> u8 {
    if in_disc(p % 16, p / 16) {
        if ch == 0 {
            r
        } else if ch == 1 {
            g
        } else if ch == 2 {
            b
        } else {
            255
        }
    } else {
        0
    }
}

/// The icon's RGBA bytes: a filled opaque disc in (r, g, b) on transparent black.
pub open spec fn icon_spec(r: u8, g: u8, b: u8) -> Seq<u8> {
    Seq::new(1024, |i: int| icon_byte(r, g, b, i / 4, i % 4))
}

fn in_disc_exec(x: u32, y: u32) -> (d: bool)
    requires
        x < 16,
        y < 16,
    ensures
        d == in_disc(x as int, y as int),
{
    let dx: i32 = 2 * (x as i32) - 15;
    let dy: i32 = 2 * (y as i32) - 15;
    assert(dx * dx <= 225 && dy * dy <= 225) by (nonlinear_arith)
        requires
            -15 <= dx <= 15,
            -15 <= dy <= 15,
    ;
    assert(dx * dx >= 0 && dy * dy >= 0) by (nonlinear_arith);
    dx * dx + dy * dy <= 196
}

/// The RGBA pixels of the tray icon in the given colour, 16 by 16, row by row.
pub fn icon_rgba(r: u8, g: u8, b: u8) -> (v: Vec<u8>)
    ensures
        v@ == icon_spec(r, g, b),
{
    let mut v: Vec<u8> = Vec::new();
    for p in 0..256u32
        invariant
            v@.len() == 4 * p,
            forall|i: int| 0 <= i < 4 * p ==> #[trigger] v@[i] == icon_byte(r, g, b, i / 4, i % 4),
    {
        let x = p % 16;
        let y = p / 16;
        let inside = in_disc_exec(x, y);
        let ghost v0 = v@;
        if inside {
            v.push(r);
            v.push(g);
            v.push(b);
            v.push(255);
        } else {
            v.push(0);
            v.push(0);
            v.push(0);
            v.push(0);
        }
        assert forall|i: int| 0 <= i < 4 * (p + 1) implies #[trigger] v@[i] == icon_byte(
            r,
            g,
            b,
            i / 4,
            i % 4,
        ) by {
            if i < 4 * p {
                assert(v@[i] == v0[i]);
            } else {
                assert(i / 4 == p as int && i % 4 == i - 4 * p) by (nonlinear_arith)
                    requires
                        4 * p <= i < 4 * p + 4,
                ;
            }
        }
    }
    assert(v@ =~= icon_spec(r, g, b));
    v
}

/// The lines "  - <event>" joined by newlines.
pub open spec fn events_text(events: Seq<Seq<char>>) -> Seq<char>
    decreases events.len(),
{
    if events.len() == 0 {
        Seq::empty()
    } else if events.len() == 1 {
        "  - "@ + events[0]
    } else {
        events_text(events.drop_last()) + "\n  - "@ + events.last()
    }
}

/// The icon colour and tooltip for a reported state.
pub open spec fn tray_view_spec(state: Seq<char>, events: Seq<Seq<char>>) -> (IconColor, Seq<char>) {
    if state == "Trusted"@ {
        (IconColor::Green, "Trust Sentinel - All Good\nYour device is safe."@)
    } else if state == "Stealth"@ {
        (IconColor::Orange, "Trust Sentinel - Stealth Mode\nYour device is hidden on this network."@)
    } else if state == "Visible"@ {
        (IconColor::Green, "Trust Sentinel - Visible\nStealth deactivated. Device is visible."@)
    } else if state == "Warning"@ {
        (
            IconColor::Yellow,
            "Trust Sentinel - Warning!\n\nChanges detected:\n"@ + events_text(events)
                + "\n\nA details window will open automatically."@,
        )
    } else if state == "Compromised"@ {
        (
            IconColor::Red,
            "Trust Sentinel - COMPROMISED!\n\n"@ + events_text(events)
                + "\n\nA repair window will open automatically."@,
        )
    } else {
        (IconColor::Gray, "Trust Sentinel - Checking..."@)
    }
}

fn push_all(v: &mut Vec<char>, s: &str)
    ensures
        final(v)@ == old(v)@ + s@,
{
    let sv = chars_of(s);
    let ghost v0 = v@;
    for i in 0..sv.len()
        invariant
            v@ == v0 + sv@.take(i as int),
    {
        v.push(sv[i]);
        assert(v@ =~= v0 + sv@.take(i + 1));
    }
    assert(sv@.take(sv.len() as int) =~= sv@);
}

fn events_text_exec(events: &Vec<String>) -> (t: Vec<char>)
    ensures
        t@ == events_text(events.deep_view()),
{
    let mut t: Vec<char> = Vec::new();
    for i in 0..events.len()
        invariant
            t@ == events_text(events.deep_view().take(i as int)),
    {
        assert(events.deep_view().take(i + 1).drop_last() =~= events.deep_view().take(i as int));
        if i == 0 {
            push_all(&mut t, "  - ");
        } else {
            push_all(&mut t, "\n  - ");
        }
        push_all(&mut t, events[i].as_str());
        assert(t@ =~= events_text(events.deep_view().take(i + 1)));
    }
    assert(events.deep_view().take(events.len() as int) =~= events.deep_view());
    t
}

fn str_is(s: &Vec<char>, lit: &str) -> (r: bool)
    ensures
        r == (s@ == lit@),
{
    chars_eq(s, &chars_of(lit))
}

/// The icon colour and tooltip for the state the endpoint reported.
pub fn tray_view(state: &str, events: &Vec<String>) -> (r: (IconColor, String))
    ensures
        r.0 == tray_view_spec(state@, events.deep_view()).0,
        r.1@ == tray_view_spec(state@, events.deep_view()).1,
{
    let s = chars_of(state);
    if str_is(&s, "Trusted") {
        (IconColor::Green, "Trust Sentinel - All Good\nYour device is safe.".to_owned())
    } else if str_is(&s, "Stealth") {
        (IconColor::Orange, "Trust Sentinel - Stealth Mode\nYour device is hidden on this network.".to_owned())
    } else if str_is(&s, "Visible") {
        (IconColor::Green, "Trust Sentinel - Visible\nStealth deactivated. Device is visible.".to_owned())
    } else if str_is(&s, "Warning") {
        let mut t = chars_of("Trust Sentinel - Warning!\n\nChanges detected:\n");
        let ev = events_text_exec(events);
        let ghost t0 = t@;
        for i in 0..ev.len()
            invariant
                t@ == t0 + ev@.take(i as int),
        {
            t.push(ev[i]);
            assert(t@ =~= t0 + ev@.take(i + 1));
        }
        assert(ev@.take(ev.len() as int) =~= ev@);
        push_all(&mut t, "\n\nA details window will open automatically.");
        (IconColor::Yellow, string_of(&t))
    } else if str_is(&s, "Compromised") {
        let mut t = chars_of("Trust Sentinel - COMPROMISED!\n\n");
        let ev = events_text_exec(events);
        let ghost t0 = t@;
        for i in 0..ev.len()
            invariant
                t@ == t0 + ev@.take(i as int),
        {
            t.push(ev[i]);
            assert(t@ =~= t0 + ev@.take(i + 1));
        }
        assert(ev@.take(ev.len() as int) =~= ev@);
        push_all(&mut t, "\n\nA repair window will open automatically.");
        (IconColor::Red, string_of(&t))
    } else {
        (IconColor::Gray, "Trust Sentinel - Checking...".to_owned())
    }
}

/// The alert that opens when the state turns to Warning or Compromised from
/// any other state; none otherwise.
pub open spec fn alert_spec(state: Seq<char>, last_state: Seq<char>) -> Option<Seq<char>> {
    if (state == "Warning"@ || state == "Compromised"@) && last_state != state {
        if state == "Warning"@ {
            Some("Trust Sentinel: Warning - Changes detected! Opening details..."@)
        } else {
            Some("Trust Sentinel: COMPROMISED! Opening repair panel..."@)
        }
    } else {
        None
    }
}

/// The alert text to show for a newly reported state, if any.
pub fn alert_message(state: &str, last_state: &str) -> (m: Option<String>)
    ensures
        match m {
            Some(t) => alert_spec(state@, last_state@) == Some(t@),
            None => alert_spec(state@, last_state@) is None,
        },
{
    let s = chars_of(state);
    let l = chars_of(last_state);
    let warning = str_is(&s, "Warning");
    if (warning || str_is(&s, "Compromised")) && !chars_eq(&l, &s) {
        if warning {
            Some("Trust Sentinel: Warning - Changes detected! Opening details...".to_owned())
        } else {
            Some("Trust Sentinel: COMPROMISED! Opening repair panel...".to_owned())
        }
    } else {
        None
    }
}

/// An alert opens only on a change of state: a state reported twice in a row
/// opens nothing the second time.
pub proof fn law_alert_only_on_change(state: Seq<char>)
    ensures
        alert_spec(state, state) is None,
{
}

} // verus!
