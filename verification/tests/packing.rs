//! What a message goes out as.
use mfsk_core::msg::hash_table::{ihashcall, CallsignHashTable};
use mfsk_core::msg::wsjt77;
use sdroxide::eu_vhf::Hashes;
use sdroxide::fixed::ONE;
use sdroxide::message::{msg_kind, MsgKind};
use sdroxide::modem::build_decode;
use sdroxide::pack::{fmt_report, join3, pack_message};

/// The message packer has to recognise the exchange for what it is. Before it
/// did, the whole thing went out as thirteen characters of free text, which is
/// a valid transmission and completely useless.
#[test]
fn the_packer_picks_the_contest_layout() {
    let (bits, sent) =
        pack_message("<PA9XYZ> <G4ABC/P> R 570007 JO22DB").expect("packs as a contest message");
    assert_eq!(msg_kind(&bits), MsgKind::EuVhf);
    assert_eq!(sent, "<PA9XYZ> <G4ABC/P> R 570007 JO22DB");
    let (bits, _) = pack_message("<PA9XYZ> <G4ABC/P> 590003 IO91NP").expect("packs");
    assert_eq!(msg_kind(&bits), MsgKind::EuVhf);
}

/// And a decode of one is addressed, with the six-character locator read out of
/// it, the whole reason the layout exists.
#[test]
fn a_contest_decode_is_addressed_and_carries_its_locator() {
    let mut eu = Hashes::default();
    eu.insert("PA9XYZ");
    eu.insert("G4ABC/P");
    let (bits, _) = pack_message("<PA9XYZ> <G4ABC/P> R 570007 JO22DB").expect("packs");
    let d = build_decode(&bits, -5, ONE / 5, 1200 * ONE, 0, &CallsignHashTable::new(), &eu)
        .expect("decodes");
    assert_eq!(d.to.as_deref(), Some("PA9XYZ"));
    assert_eq!(d.from.as_deref(), Some("G4ABC/P"));
    assert_eq!(d.grid.as_deref(), Some("JO22DB"));
    assert!(!d.is_cq && !d.free_text);
    assert_eq!((d.snr_db, d.dt, d.audio_hz, d.slot_utc), (-5, ONE / 5, 1200 * ONE, 0));
}

#[test]
fn free_text_goes_out_as_free_text() {
    // Not an exchange, so it can only travel as 13 characters of text.
    let (bits, sent) = pack_message("TNX QSO 73 GL").expect("packs");
    assert_eq!(sent, "TNX QSO 73 GL");
    assert_eq!(msg_kind(&bits), MsgKind::FreeText);
    assert_eq!(wsjt77::unpack77(&bits).as_deref(), Some("TNX QSO 73 GL"));

    // Over-long text is cut to the 13 characters FT8 carries, and the caller is
    // told what actually went out.
    let (_, sent) = pack_message("THANKS FOR THE CONTACT").expect("packs");
    assert_eq!(sent, "THANKS FOR TH");
}

/// The same both ways round: a non-standard station reporting to a standard one
/// hashes its own callsign, in the second field.
#[test]
fn a_report_from_a_compound_call_hashes_the_senders_own() {
    let (bits, sent) = pack_message("F4CYH R7KJG/QRP -12").expect("packs");
    assert_eq!(sent, "F4CYH <R7KJG/QRP> -12");
    assert_eq!(msg_kind(&bits), MsgKind::Standard);
    let mut ht = CallsignHashTable::new();
    ht.insert("R7KJG/QRP");
    assert_eq!(wsjt77::unpack77_with_hash(&bits, &ht).as_deref(), Some("F4CYH <R7KJG/QRP> -12"));
}

/// ...and a grid, which the non-standard layout drops just as silently.
#[test]
fn a_grid_to_a_compound_call_survives_too() {
    let (_, sent) = pack_message("R7KJG/QRP F4CYH JN18").expect("packs");
    assert_eq!(sent, "<R7KJG/QRP> F4CYH JN18");
}

/// The bare acknowledgements stay on the non-standard layout, which carries
/// them whole *and* spells the callsign out.
#[test]
fn an_acknowledgement_to_a_compound_call_still_spells_it_out() {
    for rpt in ["RRR", "RR73", "73"] {
        let (bits, sent) = pack_message(&format!("R7KJG/QRP F4CYH {rpt}")).expect("packs");
        assert_eq!(sent, format!("R7KJG/QRP <F4CYH> {rpt}"));
        assert_eq!(msg_kind(&bits), MsgKind::NonStandard);
    }
}

/// A serial number past what the field holds goes out as the largest that it
/// does, and is reported so.
#[test]
fn a_serial_past_the_field_is_reported_as_it_goes_out() {
    let (bits, sent) = pack_message("<PA9XYZ> <G4ABC/P> 599999 IO91NP").expect("packs");
    assert_eq!(sent, "<PA9XYZ> <G4ABC/P> 592047 IO91NP");
    assert!(bits[38..49].iter().all(|&b| b == 1));
    let mut eu = Hashes::default();
    eu.insert("PA9XYZ");
    eu.insert("G4ABC/P");
    let d = build_decode(&bits, 0, 0, 0, 0, &CallsignHashTable::new(), &eu).expect("reads");
    assert_eq!(d.message, sent);
    let (_, sent) = pack_message("<PA9XYZ> <G4ABC/P> R 592047 IO91NP").expect("packs");
    assert_eq!(sent, "<PA9XYZ> <G4ABC/P> R 592047 IO91NP");
}

/// What is reported is what a station that knows the callsigns reads.
#[test]
fn what_is_sent_is_what_is_read() {
    let mut ht = CallsignHashTable::new();
    for c in ["AB1CD", "R7KJG/QRP", "DX1FOX", "F4CYH", "W9XYZ", "K1ABCD"] {
        ht.insert(c);
    }
    let eu = Hashes::default();
    for (text, sent, kind) in [
        ("cq ab1cd fn42", "CQ AB1CD FN42", MsgKind::Standard),
        ("  W9XYZ   AB1CD  -13 ", "W9XYZ AB1CD -13", MsgKind::Standard),
        ("W9XYZ AB1CD R+05", "W9XYZ AB1CD R+05", MsgKind::Standard),
        ("W9XYZ AB1CD RR73", "W9XYZ AB1CD RR73", MsgKind::Standard),
        ("W9XYZ AB1CD", "W9XYZ AB1CD", MsgKind::Standard),
        ("CQ DX AB1CD FN42", "CQ DX AB1CD FN42", MsgKind::Standard),
        ("CQ 001 AB1CD FN42", "CQ 001 AB1CD FN42", MsgKind::Standard),
        ("R7KJG/QRP F4CYH R-12", "<R7KJG/QRP> F4CYH R-12", MsgKind::Standard),
        ("F4CYH <AB1CD> -12", "F4CYH <AB1CD> -12", MsgKind::Standard),
        ("R7KJG/QRP F4CYH 73", "R7KJG/QRP <F4CYH> 73", MsgKind::NonStandard),
        ("F4CYH R7KJG/QRP RRR", "<F4CYH> R7KJG/QRP RRR", MsgKind::NonStandard),
        ("CQ R7KJG/QRP", "CQ R7KJG/QRP", MsgKind::NonStandard),
        ("K1ABC RR73; W9XYZ DX1FOX -08", "K1ABC RR73; W9XYZ <DX1FOX> -08", MsgKind::Fox),
        ("K1ABC/QRP RR73; W9XYZ DX1FOX +00", "K1ABC/QRP RR7", MsgKind::FreeText),
        ("HELLO WORLD", "HELLO WORLD", MsgKind::FreeText),
        // Fixed words, and callsigns on the edge of what the field holds.
        ("DE AB1CD FN42", "DE AB1CD FN42", MsgKind::Standard),
        ("QRZ AB1CD 73", "QRZ AB1CD 73", MsgKind::Standard),
        ("CQ POTA AB1CD FN42", "CQ POTA AB1CD FN42", MsgKind::Standard),
        ("W9XYZ K1 73", "W9XYZ K1 73", MsgKind::Standard),
        ("W9XYZ 111ABC 73", "W9XYZ 111ABC 73", MsgKind::Standard),
        ("W9XYZ 1ABC 73", "W9XYZ 1ABC 73", MsgKind::FreeText),
        ("W9XYZ A12B3 73", "W9XYZ A12B3 7", MsgKind::FreeText),
        // A report has its sign and two digits, whatever was typed.
        ("W9XYZ AB1CD +5", "W9XYZ AB1CD +05", MsgKind::Standard),
        ("W9XYZ AB1CD R7", "W9XYZ AB1CD R+07", MsgKind::Standard),
        ("W9XYZ AB1CD -008", "W9XYZ AB1CD -08", MsgKind::Standard),
        ("W9XYZ AB1CD -50", "W9XYZ AB1CD -50", MsgKind::Standard),
        ("W9XYZ AB1CD -36", "W9XYZ AB1CD -36", MsgKind::Standard),
        ("W9XYZ AB1CD R-30", "W9XYZ AB1CD R-30", MsgKind::Standard),
        ("W9XYZ AB1CD 49", "W9XYZ AB1CD +49", MsgKind::Standard),
        ("R7KJG/QRP F4CYH 3", "<R7KJG/QRP> F4CYH +03", MsgKind::Standard),
        // A numbered CQ has three digits.
        ("CQ 5 AB1CD FN42", "CQ 005 AB1CD FN42", MsgKind::Standard),
        ("CQ +05 AB1CD FN42", "CQ 005 AB1CD FN42", MsgKind::Standard),
        ("CQ 999 AB1CD FN42", "CQ 999 AB1CD FN42", MsgKind::Standard),
        // A report whose number is another payload's does not go out as one.
        ("W9XYZ AB1CD -35", "W9XYZ AB1CD -", MsgKind::FreeText),
        ("W9XYZ AB1CD R-31", "W9XYZ AB1CD R", MsgKind::FreeText),
        ("R7KJG/QRP F4CYH -33", "R7KJG/QRP <F4CYH>", MsgKind::NonStandard),
        // A callsign that its field would cut short is hashed or spelled out.
        ("W9XYZ K1ABCD -12", "W9XYZ <K1ABCD> -12", MsgKind::Standard),
        ("W9XYZ K1ABCD RR73", "<W9XYZ> K1ABCD RR73", MsgKind::NonStandard),
        ("CQ K1ABCD FN42", "CQ K1ABCD", MsgKind::NonStandard),
        ("W9XYZ /K1ABC 73", "W9XYZ /K1ABC", MsgKind::FreeText),
        // A CQ that no other layout carries is free text.
        ("CQ PSE-QSL VIA BURO TNX", "CQ PSE-QSL VI", MsgKind::FreeText),
        ("CQ AVERYLONGCALL", "CQ AVERYLONGC", MsgKind::FreeText),
    ] {
        let (bits, got) = pack_message(text).unwrap_or_else(|| panic!("{text} did not pack"));
        assert_eq!(got, sent, "{text}");
        assert_eq!(msg_kind(&bits), kind, "{text}");
        let d = build_decode(&bits, 0, 0, 0, 0, &ht, &eu).expect("reads");
        assert_eq!(d.message, sent, "{text}");
    }
}

/// A callsign nobody has spelled out reads as the placeholder.
#[test]
fn an_unresolved_hash_reads_as_the_placeholder() {
    let (bits, _) = pack_message("R7KJG/QRP F4CYH R-12").expect("packs");
    let d = build_decode(&bits, 0, 0, 0, 0, &CallsignHashTable::new(), &Hashes::default())
        .expect("reads");
    assert_eq!(d.message, "<...> F4CYH R-12");
    assert_eq!(d.to, None);
    assert_eq!(d.from.as_deref(), Some("F4CYH"));
}

/// What no layout carries is refused.
#[test]
fn what_no_layout_carries_does_not_pack() {
    assert!(pack_message("").is_none());
    assert!(pack_message("   ").is_none());
    assert!(pack_message("GRÜSSE").is_none());
    assert!(pack_message("CQ GRÜSSE").is_none());
    assert!(pack_message("K1ABC RR73; W9XYZ DX1FOX FIVE").is_none());
}

/// The DXpedition report goes in two-decibel steps, and no further than the
/// field.
#[test]
fn a_fox_report_goes_in_two_decibel_steps() {
    let fox = |r: &str| pack_message(&format!("K1ABC RR73; W9XYZ DX1FOX {r}")).expect("packs");
    for (typed, sent) in [
        ("+03", "+02"),
        ("-01", "-02"),
        ("0", "+00"),
        ("-30", "-30"),
        ("-99", "-30"),
        ("32", "+32"),
        ("+99", "+32"),
        ("++5", "+04"),
    ] {
        assert_eq!(fox(typed).1, format!("K1ABC RR73; W9XYZ <DX1FOX> {sent}"));
    }
    let (bits, _) = fox("+00");
    let field = |start: usize, len: usize| {
        bits[start..start + len].iter().fold(0u32, |n, b| n << 1 | u32::from(*b))
    };
    assert_eq!(field(0, 28), wsjt77::pack28("K1ABC").unwrap());
    assert_eq!(field(28, 28), wsjt77::pack28("W9XYZ").unwrap());
    assert_eq!(field(56, 10), ihashcall("DX1FOX", 10));
    assert_eq!((field(66, 5), field(71, 3), field(74, 3)), (15, 1, 0));
}

/// One callsign is hashed, or none: never both, and never beside a bare
/// acknowledgement.
#[test]
fn one_callsign_is_hashed_or_none() {
    for (text, kind) in [
        ("R7KJG/QRP DL/W1AW -12", MsgKind::FreeText),
        ("R7KJG/QRP F4CYH", MsgKind::NonStandard),
        ("R7KJG/QRP F4CYH RR73", MsgKind::NonStandard),
    ] {
        assert_eq!(msg_kind(&pack_message(text).expect("packs").0), kind, "{text}");
    }
    let (bits, sent) = pack_message("K1ABC W9XYZ -12").expect("packs");
    assert_eq!(sent, "K1ABC W9XYZ -12");
    assert_eq!(wsjt77::unpack77(&bits).as_deref(), Some("K1ABC W9XYZ -12"));
    let (bits, sent) = pack_message("R7KJG/QRP F4CYH -12").expect("packs");
    assert_eq!(sent, "<R7KJG/QRP> F4CYH -12");
    let n28 = bits[0..28].iter().fold(0u32, |n, b| n << 1 | u32::from(*b));
    assert_eq!(n28, 2_063_592 + ihashcall("R7KJG/QRP", 22));
}

#[test]
fn words_and_reports_are_written_out() {
    assert_eq!(join3("A", "B", "C"), "A B C");
    assert_eq!(join3("A", "", "C"), "A C");
    assert_eq!(join3("", "", ""), "");
    assert_eq!(fmt_report(2), "+02");
    assert_eq!(fmt_report(-8), "-08");
    assert_eq!(fmt_report(i16::MIN), "-32768");
}
