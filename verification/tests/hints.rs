//! What is known of a message before it arrives.
use sdroxide::hints::ApHints;
use sdroxide::modem::{Ft8Modem, Mode, Protocol};

#[test]
fn a_priori_hints_name_the_message_we_are_waiting_for() {
    // Our call is the addressee, the DX's the sender: "AB1CD W9XYZ R-13".
    let ap =
        ApHints { my_call: "AB1CD".into(), dx_call: Some("W9XYZ".into()), ..Default::default() };
    let h = ap.ft8().expect("a hint");
    assert_eq!(h.call1.as_deref(), Some("AB1CD"));
    assert_eq!(h.call2.as_deref(), Some("W9XYZ"));
    assert_eq!(ap.calls(), ["AB1CD", "W9XYZ"]);

    // Calling CQ we still know the addressee: anyone answering names us.
    let ap = ApHints { my_call: "AB1CD".into(), dx_call: None, ..Default::default() };
    let h = ap.ft8().expect("a hint");
    assert_eq!(h.call1.as_deref(), Some("AB1CD"));
    assert_eq!(h.call2, None);

    // An unconfigured station knows nothing to hint with.
    assert!(ApHints::default().ft8().is_none());
    assert!(ApHints::default().ft4().is_none());
    assert!(
        ApHints { my_call: "  ".into(), dx_call: Some("W9XYZ".into()), ..Default::default() }
            .ft8()
            .is_none()
    );
}

/// Callsigns are taken without the whitespace around them, and empty ones left
/// out.
#[test]
fn hints_are_trimmed() {
    let ap =
        ApHints { my_call: " AB1CD ".into(), dx_call: Some("  ".into()), ..Default::default() };
    assert_eq!(ap.calls(), ["AB1CD"]);
    assert_eq!(ap.calls_for_hint(), Some(("AB1CD", None)));
    let h = ap.ft4().expect("a hint");
    assert_eq!((h.call1.as_deref(), h.call2, h.grid, h.report), (Some("AB1CD"), None, None, None));
}

/// Each protocol gets the passes it has.
#[test]
fn each_protocol_gets_its_passes() {
    let ap = ApHints { my_call: "AB1CD".into(), dx_call: None, eu_vhf: true };
    let p = Ft8Modem::new(Mode::Ft8).passes(&ap);
    assert_eq!((p.wide, p.rescue), (Protocol::Ft8, true));
    assert!(p.wide_hint.is_some() && p.targeted.is_none());
    let p = Ft8Modem::new(Mode::Ft4).passes(&ap);
    assert_eq!((p.wide, p.rescue), (Protocol::Ft4, false));
    assert!(p.wide_hint.is_none() && p.targeted.is_some());
    let p = Ft8Modem::new(Mode::Ft2).passes(&ap);
    assert_eq!((p.wide, p.rescue), (Protocol::Ft2, false));
    assert!(p.wide_hint.is_none() && p.targeted.is_none());
    let p = Ft8Modem::new(Mode::Ft4).passes(&ApHints::default());
    assert!(p.targeted.is_none());
}
