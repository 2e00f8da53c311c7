use trust_sentinel::tray::{alert_message, icon_rgb, icon_rgba, tray_view, IconColor};

#[test]
fn icon_is_a_disc() {
    let (r, g, b) = icon_rgb(IconColor::Orange);
    assert_eq!((r, g, b), (255, 140, 0));
    let px = icon_rgba(r, g, b);
    assert_eq!(px.len(), 16 * 16 * 4);
    let at = |x: usize, y: usize| &px[(y * 16 + x) * 4..(y * 16 + x) * 4 + 4];
    assert_eq!(at(0, 0), &[0, 0, 0, 0]);
    assert_eq!(at(8, 8), &[255, 140, 0, 255]);
    assert_eq!(at(1, 8), &[255, 140, 0, 255]);
    assert_eq!(at(0, 8), &[0, 0, 0, 0]);
    // Same disc as the floating-point test sqrt(dx*dx + dy*dy) <= 7.
    for y in 0..16 {
        for x in 0..16 {
            let dx = x as f32 + 0.5 - 8.0;
            let dy = y as f32 + 0.5 - 8.0;
            let inside = (dx * dx + dy * dy).sqrt() <= 7.0;
            assert_eq!(at(x, y)[3] == 255, inside, "pixel {} {}", x, y);
        }
    }
}

#[test]
fn tooltips() {
    let ev = vec!["dns_change".to_string(), "port_scan: 1.2.3.4 - BLOCKED".to_string()];
    let (c, t) = tray_view("Warning", &ev);
    assert_eq!(c, IconColor::Yellow);
    assert_eq!(t, "Trust Sentinel - Warning!\n\nChanges detected:\n  - dns_change\n  - port_scan: 1.2.3.4 - BLOCKED\n\nA details window will open automatically.");
    let (c, t) = tray_view("Compromised", &vec![]);
    assert_eq!(c, IconColor::Red);
    assert_eq!(t, "Trust Sentinel - COMPROMISED!\n\n\n\nA repair window will open automatically.");
    assert_eq!(tray_view("Trusted", &ev).0, IconColor::Green);
    assert_eq!(tray_view("Stealth", &ev).0, IconColor::Orange);
    assert_eq!(tray_view("Visible", &ev).1, "Trust Sentinel - Visible\nStealth deactivated. Device is visible.");
    assert_eq!(tray_view("???", &ev), (IconColor::Gray, "Trust Sentinel - Checking...".to_string()));
}

#[test]
fn alerts_open_on_a_change_to_warning_or_compromised() {
    assert_eq!(
        alert_message("Warning", "Trusted").as_deref(),
        Some("Trust Sentinel: Warning - Changes detected! Opening details...")
    );
    assert_eq!(
        alert_message("Compromised", "Warning").as_deref(),
        Some("Trust Sentinel: COMPROMISED! Opening repair panel...")
    );
    assert_eq!(alert_message("Warning", "Warning"), None);
    assert_eq!(alert_message("Trusted", "Warning"), None);
}
