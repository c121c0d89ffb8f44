use ferrite_blocks::ft8::{is_ft8_call, is_ft8_grid, parse_ft8, Ft8Mode, SlotTracker};

#[test]
fn parse_ft8_forms() {
    assert_eq!(parse_ft8("CQ K1ABC FN42"), (Some("K1ABC"), None, Some("FN42")));
    assert_eq!(parse_ft8("CQ DX K1ABC FN42"), (Some("K1ABC"), None, Some("FN42")));
    assert_eq!(
        parse_ft8("W9XYZ K1ABC FN42"),
        (Some("K1ABC"), Some("W9XYZ"), Some("FN42"))
    );
    assert_eq!(
        parse_ft8("W9XYZ K1ABC -15"),
        (Some("K1ABC"), Some("W9XYZ"), None)
    );
    assert_eq!(
        parse_ft8("W9XYZ K1ABC RR73"),
        (Some("K1ABC"), Some("W9XYZ"), None)
    );
    assert_eq!(parse_ft8(""), (None, None, None));
}

#[test]
fn grid_and_call_shapes() {
    assert!(is_ft8_grid("FN42"));
    assert!(is_ft8_grid("AR09"));
    // `RR73` has the shape of a locator; parse_ft8 sets it apart itself.
    assert!(is_ft8_grid("RR73"));
    assert!(!is_ft8_grid("FN42AB"));
    assert!(!is_ft8_grid("FN4"));
    assert!(!is_ft8_grid("fn42"));
    assert!(!is_ft8_grid("SN42"));
    assert!(is_ft8_call("K1ABC"));
    assert!(is_ft8_call("W9XYZ"));
    assert!(!is_ft8_call("CQ"));
    assert!(!is_ft8_call("-15"));
}

#[test]
fn slot_lengths() {
    assert_eq!(Ft8Mode::default(), Ft8Mode::Ft8);
    assert_eq!(Ft8Mode::Ft8.slot_ms(), 15_000);
    assert_eq!(Ft8Mode::Ft4.slot_ms(), 7_500);
    assert_eq!(Ft8Mode::Ft8.active_ms(), 12_640);
    assert_eq!(Ft8Mode::Ft4.active_ms(), 5_040);
}

#[test]
fn slot_tracker_decodes_each_slot_once() {
    let mut t = SlotTracker::new(Ft8Mode::Ft8);
    // Inside the TX window of slot 1: feed only.
    let p = t.on_tick(15_000 + 1_000);
    assert!(p.feed && !p.reset);
    assert_eq!((p.drain_completed, p.drain_current), (None, None));
    // Dead zone: decode the current slot once.
    let p = t.on_tick(15_000 + 13_000);
    assert!(!p.feed);
    assert_eq!(p.drain_current, Some(15_000));
    let p = t.on_tick(15_000 + 14_000);
    assert_eq!(p.drain_current, None);
    // Next slot: reset; the old slot was already decoded.
    let p = t.on_tick(30_000 + 10);
    assert!(p.reset && p.feed);
    assert_eq!(p.drain_completed, None);
    // Skip past the dead zone of slot 2 into slot 3: slot 2 is drained late.
    let p = t.on_tick(45_000 + 10);
    assert!(p.reset);
    assert_eq!(p.drain_completed, Some(30_000));
}
