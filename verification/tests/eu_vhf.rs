//! The EU VHF contest layout.
use sdroxide::eu_vhf;
use sdroxide::message::{msg_kind, MsgKind};

/// The worked example of the layout's own documentation, both ways.
#[test]
fn the_reference_exchange_survives_a_round_trip() {
    let mut ht = eu_vhf::Hashes::default();
    ht.insert("G4ABC/P");
    ht.insert("PA9XYZ");
    let bits = eu_vhf::pack("G4ABC/P", "PA9XYZ", true, 57, 7, "JO22DB").expect("packs");
    // i3 = 5, and nothing else in the type field.
    assert_eq!(&bits[74..77], &[1, 0, 1]);
    assert_eq!(msg_kind(&bits), MsgKind::EuVhf);
    assert_eq!(
        eu_vhf::unpack(&bits, &ht).as_deref(),
        Some("<G4ABC/P> <PA9XYZ> R 570007 JO22DB"),
    );
}

/// The other half of the same exchange: bare, not rogered.
#[test]
fn an_unrogered_exchange_reads_back_without_the_r() {
    let mut ht = eu_vhf::Hashes::default();
    ht.insert("PA9XYZ");
    ht.insert("G4ABC/P");
    let bits = eu_vhf::pack("PA9XYZ", "G4ABC/P", false, 59, 3, "IO91NP").expect("packs");
    assert_eq!(eu_vhf::unpack(&bits, &ht).as_deref(), Some("<PA9XYZ> <G4ABC/P> 590003 IO91NP"));
}

/// A station nobody has heard spell its call out comes back as `<...>`.
#[test]
fn an_unknown_hash_reads_as_a_placeholder() {
    let bits = eu_vhf::pack("PA9XYZ", "G4ABC/P", false, 59, 3, "IO91NP").expect("packs");
    assert_eq!(
        eu_vhf::unpack(&bits, &eu_vhf::Hashes::default()).as_deref(),
        Some("<...> <...> 590003 IO91NP"),
    );
}

/// Every locator the field can hold survives the trip, and the boundaries of
/// the alphabet are in the set.
#[test]
fn every_locator_the_field_holds_round_trips() {
    for g in ["AA00AA", "RR99XX", "JN88DD", "IO91NP", "JO22DB"] {
        let n = eu_vhf::pack_grid6(g).unwrap_or_else(|| panic!("{g} did not pack"));
        assert!(n < 18 * 18 * 10 * 10 * 24 * 24, "{g} packed out of range: {n}");
        assert_eq!(eu_vhf::unpack_grid6(n).as_deref(), Some(g));
    }
    assert_eq!(eu_vhf::pack_grid6("JN88DY"), None, "Y is outside the field's alphabet");
    assert_eq!(eu_vhf::pack_grid6("JN88"), None, "a four-character grid is not one");
}

/// The exchange is a two-digit RS glued to a four-digit serial, and the RS is
/// bounded by the three bits the field gives it.
#[test]
fn the_exchange_is_an_rs_and_a_serial() {
    assert_eq!(eu_vhf::parse_exchange("590003"), Some((59, 3)));
    assert_eq!(eu_vhf::parse_exchange("520001"), Some((52, 1)));
    assert_eq!(eu_vhf::parse_exchange("512047"), None, "RS 51 is below the field");
    assert_eq!(eu_vhf::parse_exchange("602047"), None, "RS 60 is above it");
    assert_eq!(eu_vhf::parse_exchange("59003"), None, "five digits is not an exchange");
    assert_eq!(eu_vhf::exchange(59, 3), "590003");
}

/// The numbers at the edges of the locator field, and the first one past it.
#[test]
fn the_locator_field_starts_and_ends_where_it_should() {
    assert_eq!(eu_vhf::pack_grid6("AA00AA"), Some(0));
    assert_eq!(eu_vhf::pack_grid6("RR99XX"), Some(18_662_399));
    assert_eq!(eu_vhf::pack_grid6("JO22DB"), Some(10_150_345));
    assert_eq!(eu_vhf::unpack_grid6(18_662_399).as_deref(), Some("RR99XX"));
    assert_eq!(eu_vhf::unpack_grid6(18_662_400), None);
    assert_eq!(eu_vhf::unpack_grid6(u32::MAX), None);
    assert!(!eu_vhf::is_grid6("jo22db"), "lower case is not this layout's alphabet");
    assert!(!eu_vhf::is_grid6("SA00AA"));
    assert!(!eu_vhf::is_grid6("JO22Dé"));
}

/// Serial numbers past the eleven-bit field stay at its end.
#[test]
fn a_serial_too_large_for_the_field_is_held_at_its_end() {
    assert_eq!(eu_vhf::exchange(59, 2047), "592047");
    assert_eq!(eu_vhf::exchange(59, 2048), "592047");
    assert_eq!(eu_vhf::exchange(5, 12), "050012");
    assert_eq!(eu_vhf::exchange(59, u32::MAX), "592047");
    let bits = eu_vhf::pack("PA9XYZ", "G4ABC/P", false, 52, 9999, "AA00AA").expect("packs");
    assert_eq!(
        eu_vhf::unpack(&bits, &eu_vhf::Hashes::default()).as_deref(),
        Some("<...> <...> 522047 AA00AA"),
    );
}

/// What the layout cannot hold is refused.
#[test]
fn reports_and_locators_outside_the_fields_do_not_pack() {
    assert_eq!(eu_vhf::pack("A1A", "B1B", false, 51, 1, "JO22DB"), None);
    assert_eq!(eu_vhf::pack("A1A", "B1B", false, 60, 1, "JO22DB"), None);
    assert_eq!(eu_vhf::pack("A1A", "B1B", false, 59, 1, "JO22"), None);
    assert!(eu_vhf::pack("A1A", "B1B", false, 52, 1, "JO22DB").is_some());
}

/// Brackets come off only as a pair.
#[test]
fn brackets_are_stripped_as_a_pair() {
    assert_eq!(eu_vhf::bare("<W1AW>"), "W1AW");
    assert_eq!(eu_vhf::bare("<W1AW"), "<W1AW");
    assert_eq!(eu_vhf::bare("W1AW>"), "W1AW>");
    assert_eq!(eu_vhf::bare("<>"), "");
    assert_eq!(eu_vhf::bare("<"), "<");
    assert_eq!(eu_vhf::bare(""), "");
}

/// A callsign is kept once, in upper case and without its brackets; what is no
/// callsign is not kept at all.
#[test]
fn only_callsigns_are_remembered() {
    let mut ht = eu_vhf::Hashes::default();
    for t in ["", "AB", "...", "<...>", "CQ", "cq dx", "  "] {
        ht.insert(t);
    }
    let h = mfsk_core::msg::hash_table::ihashcall("G4ABC/P", 12);
    assert_eq!(ht.lookup(h, 12), None);
    ht.insert("  <g4abc/p> ");
    assert_eq!(ht.lookup(h, 12), Some("G4ABC/P"));
    // The whole callsign is hashed: the base call stands on another number.
    assert_eq!(ht.lookup(mfsk_core::msg::hash_table::ihashcall("G4ABC", 22), 22), None);
    assert_eq!(ht.lookup(mfsk_core::msg::hash_table::ihashcall("G4ABC/P", 22), 22), Some("G4ABC/P"));
}

/// The most recently heard station wins a collision, and a thousand are kept.
#[test]
fn the_last_station_heard_wins_a_collision() {
    let call = |i: usize| format!("K{}ABC", i);
    // Two callsigns on one twelve-bit number.
    let mut first: Vec<Option<usize>> = vec![None; 4096];
    let mut pair = None;
    for i in 0..4097usize {
        let h = mfsk_core::msg::hash_table::ihashcall(&call(i), 12) as usize;
        match first[h] {
            Some(j) => {
                pair = Some((j, i, h as u32));
                break;
            }
            None => first[h] = Some(i),
        }
    }
    let (a, b, h) = pair.expect("4097 callsigns on 4096 numbers");
    let mut ht = eu_vhf::Hashes::default();
    ht.insert(&call(a));
    ht.insert(&call(b));
    assert_eq!(ht.lookup(h, 12), Some(call(b).as_str()));
    ht.insert(&call(a));
    assert_eq!(ht.lookup(h, 12), Some(call(a).as_str()));
    // Neither changes what another number resolves to.
    ht.insert("G4ABC/P");
    let other = mfsk_core::msg::hash_table::ihashcall("G4ABC/P", 22);
    ht.insert(&call(b));
    assert_eq!(ht.lookup(other, 22), Some("G4ABC/P"));

    let mut ht = eu_vhf::Hashes::default();
    for i in 0..1001usize {
        ht.insert(&call(i));
    }
    let kept = |i: usize| {
        let n = mfsk_core::msg::hash_table::ihashcall(&call(i), 32);
        ht.lookup(n, 32) == Some(call(i).as_str())
    };
    assert!(!kept(0), "the oldest made room");
    assert!(kept(1));
    assert!(kept(1000));
}
