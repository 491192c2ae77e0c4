//! Who a received message names.
use sdroxide::message::{
    call_of, is_callish, is_grid, msg_kind, parse_message, parse_text_decode, MsgKind, Parsed,
};

#[test]
fn free_text_names_no_station() {
    for text in ["TNX 73 GL", "PSE QSL", "RRR", "73", "K1ABC TNX"] {
        let p = parse_text_decode(text);
        assert!(p.free_text && p.from.is_none() && p.to.is_none(), "{text}: {p:?}");
    }
    let p = parse_text_decode("K1ABC W9XYZ EN37");
    assert!(!p.free_text);
    assert_eq!((p.to.as_deref(), p.from.as_deref()), (Some("K1ABC"), Some("W9XYZ")));
    let p = parse_text_decode("CQ K1ABC FN42");
    assert!(p.is_cq && !p.free_text);
    assert_eq!(p.from.as_deref(), Some("K1ABC"));
    // An unresolved hashed call is not a reason to call the row free text.
    let p = parse_text_decode("<...> W9XYZ R-05");
    assert!(!p.free_text);
    assert_eq!(p.from.as_deref(), Some("W9XYZ"));
}

#[test]
fn parse_cq_and_qso_messages() {
    let p = parse_message("CQ AB1CD FN42", MsgKind::Standard);
    assert_eq!(p.to, None);
    assert_eq!(p.from.as_deref(), Some("AB1CD"));
    assert_eq!(p.grid.as_deref(), Some("FN42"));
    assert!(p.is_cq && p.cq_to.is_none(), "a plain CQ is aimed at nobody in particular");

    let p = parse_message("W9XYZ AB1CD -13", MsgKind::Standard);
    assert_eq!(p.to.as_deref(), Some("W9XYZ"));
    assert_eq!(p.from.as_deref(), Some("AB1CD"));
    assert_eq!(p.grid, None);
    assert!(!p.is_cq);

    let p = parse_message("AB1CD W9XYZ EM48", MsgKind::Standard);
    assert_eq!(p.to.as_deref(), Some("AB1CD"));
    assert_eq!(p.from.as_deref(), Some("W9XYZ"));
    assert_eq!(p.grid.as_deref(), Some("EM48"));

    // A rogered grid ("R FN42") still places the station.
    let p = parse_message("AB1CD W9XYZ R EM48", MsgKind::Standard);
    assert_eq!(p.grid.as_deref(), Some("EM48"));

    // "CQ DX": the caller only wants stations outside their own entity.
    let p = parse_message("CQ DX AB1CD FN42", MsgKind::Standard);
    assert_eq!(p.to, None);
    assert_eq!(p.from.as_deref(), Some("AB1CD"), "the DX modifier is not the sender");
    assert_eq!(p.grid.as_deref(), Some("FN42"));
    assert!(p.is_cq);
    assert_eq!(p.cq_to.as_deref(), Some("DX"));

    // "RR73" is a sign-off, not a locator — it must not be read as a grid.
    let p = parse_message("AB1CD W9XYZ RR73", MsgKind::Standard);
    assert_eq!(p.from.as_deref(), Some("W9XYZ"));
    assert_eq!(p.grid, None, "RR73 must not parse as a grid position");
    // Invalid Maidenhead fields (S..Z) aren't grids either.
    assert!(!is_grid("ZZ99"));
    assert!(is_grid("FN42"));
}

#[test]
fn every_directed_cq_names_its_target() {
    // Continent, country prefix and activity all read the same way: the
    // token between "CQ" and the callsign.
    for (msg, want) in [
        ("CQ EU AB1CD FN42", "EU"),
        ("CQ JA AB1CD FN42", "JA"),
        ("CQ POTA AB1CD FN42", "POTA"),
        ("CQ TEST AB1CD FN42", "TEST"),
        ("CQ 001 AB1CD FN42", "001"),
    ] {
        let p = parse_message(msg, MsgKind::Standard);
        assert_eq!(p.cq_to.as_deref(), Some(want), "{msg}");
        assert_eq!(p.from.as_deref(), Some("AB1CD"), "{msg}: the modifier is not the sender");
        assert_eq!(p.grid.as_deref(), Some("FN42"), "{msg}");
    }
}

#[test]
fn free_text_carries_no_addressing() {
    // Free text may look exactly like an exchange — only the type bits know
    // the difference, and reading a sender out of it would aim the QSO
    // machine at a station that never transmitted.
    let p = parse_message("W9XYZ RR73", MsgKind::FreeText);
    assert!(p.free_text);
    assert_eq!((p.to, p.from, p.grid), (None, None, None));
    assert!(!p.is_cq);
    // The same text as a real message does address someone.
    let p = parse_message("W9XYZ RR73", MsgKind::Standard);
    assert_eq!(p.to.as_deref(), Some("W9XYZ"));
}

#[test]
fn hashed_and_non_standard_callsigns_parse() {
    // An unresolved hash is nobody: better no callsign than "<...>".
    let p = parse_message("<...> DL/W1AW RR73", MsgKind::NonStandard);
    assert_eq!(p.to, None);
    assert_eq!(p.from.as_deref(), Some("DL/W1AW"));

    // A resolved one names the station it stands for.
    let p = parse_message("DL/W1AW <AB1CD> 73", MsgKind::NonStandard);
    assert_eq!(p.to.as_deref(), Some("DL/W1AW"));
    assert_eq!(p.from.as_deref(), Some("AB1CD"));

    // A non-standard call can call CQ too.
    let p = parse_message("CQ DL/W1AW", MsgKind::NonStandard);
    assert!(p.is_cq);
    assert_eq!(p.from.as_deref(), Some("DL/W1AW"));
}

/// A CQ by a hash that nobody resolved has no sender, and the placeholder is
/// nobody's target.
#[test]
fn a_cq_by_an_unresolved_hash_has_no_sender() {
    let p = parse_message("CQ <...> FN42", MsgKind::Standard);
    assert!(p.is_cq && !p.free_text);
    assert_eq!((p.to, p.from, p.cq_to, p.rr73_to), (None, None, None, None));
    assert_eq!(p.grid.as_deref(), Some("FN42"));

    let p = parse_message("CQ DX <...> FN42", MsgKind::Standard);
    assert!(p.is_cq);
    assert_eq!((p.to, p.from), (None, None));
    assert_eq!((p.cq_to.as_deref(), p.grid.as_deref()), (Some("DX"), Some("FN42")));

    // Three dots without the brackets are no hash: whatever stands between the
    // CQ and the callsign is the modifier.
    let p = parse_message("CQ ... K1ABC FN42", MsgKind::Standard);
    assert_eq!((p.cq_to.as_deref(), p.from.as_deref()), (Some("..."), Some("K1ABC")));
    assert_eq!(p.grid.as_deref(), Some("FN42"));

    // A resolved one names its station.
    let p = parse_message("CQ DX <R7KJG/QRP> FN42", MsgKind::Standard);
    assert_eq!((p.cq_to.as_deref(), p.from.as_deref()), (Some("DX"), Some("R7KJG/QRP")));
    assert_eq!(p.grid.as_deref(), Some("FN42"));
}

#[test]
fn contest_and_dxpedition_layouts_parse() {
    // ARRL RTTY Roundup: the "TU;" opener is not the addressee.
    let p = parse_message("TU; K1ABC W9XYZ R 589 MA", MsgKind::RttyRu);
    assert_eq!(p.to.as_deref(), Some("K1ABC"));
    assert_eq!(p.from.as_deref(), Some("W9XYZ"));
    assert_eq!(p.grid, None);

    // Field Day.
    let p = parse_message("K1ABC W9XYZ [FD]", MsgKind::FieldDay);
    assert_eq!(p.to.as_deref(), Some("K1ABC"));
    assert_eq!(p.from.as_deref(), Some("W9XYZ"));

    // DXpedition (Fox): the fox is working W9XYZ; K1ABC's contact is done.
    let p = parse_message("K1ABC RR73; W9XYZ <DX1FOX> +03", MsgKind::Fox);
    assert_eq!(p.to.as_deref(), Some("W9XYZ"));
    assert_eq!(p.from.as_deref(), Some("DX1FOX"), "the fox sent it");
    assert_eq!(p.rr73_to.as_deref(), Some("K1ABC"), "K1ABC is the one being signed off");
}

/// The type bits decide the layout, every combination of them.
#[test]
fn the_type_bits_decide_the_layout() {
    let kind = |i3: u8, n3: u8| {
        let mut bits = [0u8; 77];
        for k in 0..3 {
            bits[74 + k] = (i3 >> (2 - k)) & 1;
            bits[71 + k] = (n3 >> (2 - k)) & 1;
        }
        msg_kind(&bits)
    };
    assert_eq!(kind(0, 0), MsgKind::FreeText);
    assert_eq!(kind(0, 1), MsgKind::Fox);
    assert_eq!(kind(0, 2), MsgKind::Other);
    assert_eq!(kind(0, 3), MsgKind::FieldDay);
    assert_eq!(kind(0, 4), MsgKind::FieldDay);
    assert_eq!(kind(0, 5), MsgKind::Other);
    for n3 in 0..8 {
        assert_eq!(kind(1, n3), MsgKind::Standard);
        assert_eq!(kind(2, n3), MsgKind::Standard);
        assert_eq!(kind(3, n3), MsgKind::RttyRu);
        assert_eq!(kind(4, n3), MsgKind::NonStandard);
        assert_eq!(kind(5, n3), MsgKind::EuVhf);
        assert_eq!(kind(6, n3), MsgKind::Other);
        assert_eq!(kind(7, n3), MsgKind::Other);
    }
    // Only the lowest bit of each byte counts.
    assert_eq!(msg_kind(&[2u8; 77]), MsgKind::FreeText);
}

/// A contest exchange names both stations, and its locator has six characters.
#[test]
fn a_contest_exchange_names_both_stations() {
    let p = parse_message("<PA9XYZ> <G4ABC/P> R 570007 JO22DB", MsgKind::EuVhf);
    assert_eq!(p.to.as_deref(), Some("PA9XYZ"));
    assert_eq!(p.from.as_deref(), Some("G4ABC/P"));
    assert_eq!(p.grid.as_deref(), Some("JO22DB"));
    let p = parse_message("<...> <G4ABC/P> 570007 JO22", MsgKind::EuVhf);
    assert_eq!((p.to.as_deref(), p.from.as_deref(), p.grid), (None, Some("G4ABC/P"), None));
}

/// Nothing at all, and nothing behind the opener.
#[test]
fn an_empty_message_names_nobody() {
    for text in ["", "   ", "TU;", "\u{a0}TU;\t"] {
        assert_eq!(parse_message(text, MsgKind::Standard), Parsed::default(), "{text:?}");
    }
    let p = parse_message("CQ", MsgKind::Standard);
    assert!(p.is_cq && p.from.is_none() && p.cq_to.is_none() && p.grid.is_none());
    // A modifier is told in upper case, and a CQ without a callsign has no sender.
    let p = parse_message("CQ dx", MsgKind::Standard);
    assert_eq!((p.from, p.cq_to.as_deref()), (None, Some("DX")));
}

#[test]
fn tokens_are_told_apart() {
    assert_eq!(call_of("<...>"), None);
    assert_eq!(call_of("..."), None);
    assert_eq!(call_of("<>"), None);
    assert_eq!(call_of("<W1AW>").as_deref(), Some("W1AW"));
    assert_eq!(call_of("W1AW").as_deref(), Some("W1AW"));
    assert!(is_grid("fn42") && is_grid("RR72"));
    assert!(!is_grid("RR73") && !is_grid("FN4") && !is_grid("FN423") && !is_grid("SN42"));
    assert!(is_callish("<W1AW>") && is_callish("DL/W1AW") && is_callish("w1a"));
    assert!(!is_callish("W1") && !is_callish("001") && !is_callish("EU") && !is_callish("POTA"));
    assert!(!is_callish("W1-W") && !is_callish("W1é"));
}
